use kml_kernel::error::Error;
use kml_kernel::parse::lexer::{tokenize_kml, TokenKind};
use kml_kernel::parse::parser::{parse_kml, Tokens};
use kml_kernel::parse::{lex_and_parse_kml, verify, EventAction, KernelConfig, SchedulerType};

const DEMO: &str = "# a demo model\nevent boot {\n  newtask\n  sched\n}\nevent quit { Shutdown }\nkernel {\n  events = [boot, quit]\n  scheduler = fifo\n}\n";

#[test]
fn keyword_is_not_a_prefix_of_identifier() {
    let toks = tokenize_kml("newTaskx").unwrap();
    assert_eq!(toks.len(), 1);
    assert_eq!(toks[0].kind, TokenKind::Identifier);
    assert_eq!(toks[0].span, 0..8);
    assert_eq!(toks[0].text(), "newTaskx");
}

#[test]
fn keywords_ignore_case() {
    let toks = tokenize_kml("NEWTASK Sched eXiT shutdown STOP Event KERNEL events Scheduler FIFO random").unwrap();
    let kinds: Vec<TokenKind> = toks.iter().map(|t| t.kind).collect();
    assert_eq!(
        kinds,
        vec![
            TokenKind::NewTask,
            TokenKind::Sched,
            TokenKind::Exit,
            TokenKind::Shutdown,
            TokenKind::Stop,
            TokenKind::Event,
            TokenKind::Kernel,
            TokenKind::Events,
            TokenKind::Scheduler,
            TokenKind::Fifo,
            TokenKind::Random,
        ]
    );
}

#[test]
fn punctuation_and_spans() {
    let toks = tokenize_kml("{ } [ ] , = _a9").unwrap();
    let kinds: Vec<TokenKind> = toks.iter().map(|t| t.kind).collect();
    assert_eq!(
        kinds,
        vec![
            TokenKind::LBrace,
            TokenKind::RBrace,
            TokenKind::LBracket,
            TokenKind::RBracket,
            TokenKind::Comma,
            TokenKind::Eq,
            TokenKind::Identifier,
        ]
    );
    assert_eq!(toks[6].span, 12..15);
    assert_eq!(toks[6].text(), "_a9");
}

#[test]
fn comments_and_whitespace_are_skipped() {
    let toks = tokenize_kml("  # héllo wörld\n\tkernel # trailing").unwrap();
    assert_eq!(toks.len(), 1);
    assert_eq!(toks[0].kind, TokenKind::Kernel);
    assert_eq!(toks[0].text(), "kernel");
    assert_eq!(tokenize_kml("").unwrap().len(), 0);
}

#[test]
fn stray_bytes_fail_to_lex() {
    assert_eq!(tokenize_kml("kernel $").unwrap_err(), Error::LexError);
    assert_eq!(tokenize_kml("9abc").unwrap_err(), Error::LexError);
    assert_eq!(tokenize_kml("événement").unwrap_err(), Error::LexError);
}

#[test]
fn relexing_a_token_gives_its_kind() {
    let toks = tokenize_kml(DEMO).unwrap();
    assert!(toks.len() > 10);
    for t in &toks {
        let again = tokenize_kml(t.text()).unwrap();
        assert_eq!(again.len(), 1);
        assert_eq!(again[0].kind, t.kind);
        assert_eq!(again[0].span, 0..t.text().len());
    }
}

#[test]
fn parses_demo_model() {
    let toks = tokenize_kml(DEMO).unwrap();
    let model = parse_kml(Tokens::from(toks.as_slice())).unwrap();
    assert_eq!(model.event_defs.len(), 2);
    assert_eq!(model.event_defs[0].name.0, "boot");
    assert_eq!(model.event_defs[0].body, vec![EventAction::NewTask, EventAction::Sched]);
    assert_eq!(model.event_defs[1].name.0, "quit");
    assert_eq!(model.event_defs[1].body, vec![EventAction::Shutdown]);
    assert_eq!(model.kernel_def.configs.len(), 2);
    match &model.kernel_def.configs[0] {
        KernelConfig::Events(names) => {
            let names: Vec<&str> = names.iter().map(|n| n.0.as_str()).collect();
            assert_eq!(names, vec!["boot", "quit"]);
        }
        KernelConfig::Scheduler(_) => panic!("expected events"),
    }
    match &model.kernel_def.configs[1] {
        KernelConfig::Scheduler(t) => assert_eq!(*t, SchedulerType::Fifo),
        KernelConfig::Events(_) => panic!("expected scheduler"),
    }
    assert!(verify(&model).is_ok());
}

#[test]
fn loads_minimal_program() {
    let src = "event boot {\n  newtask\n  sched\n}\nkernel {\n  events = [boot]\n  scheduler = fifo\n}\n";
    let model = lex_and_parse_kml(src).unwrap();
    assert_eq!(model.event_defs.len(), 1);
    assert_eq!(model.event_defs[0].body, vec![EventAction::NewTask, EventAction::Sched]);
}

#[test]
fn random_scheduler_and_empty_event() {
    let model = lex_and_parse_kml("event e {} kernel { scheduler = random events = [e] }").unwrap();
    assert_eq!(model.event_defs[0].body.len(), 0);
    match &model.kernel_def.configs[0] {
        KernelConfig::Scheduler(t) => assert_eq!(*t, SchedulerType::Random),
        KernelConfig::Events(_) => panic!("expected scheduler"),
    }
}

#[test]
fn undeclared_event_is_bad_config() {
    let r = lex_and_parse_kml("kernel { events = [a] scheduler = fifo }");
    assert_eq!(r.unwrap_err(), Error::BadKernelConfig);
}

#[test]
fn repeated_or_missing_entries_are_bad_config() {
    let twice = "event a {} kernel { events = [a] events = [a] scheduler = fifo }";
    assert_eq!(lex_and_parse_kml(twice).unwrap_err(), Error::BadKernelConfig);
    let two_sched = "event a {} kernel { events = [a] scheduler = fifo scheduler = random }";
    assert_eq!(lex_and_parse_kml(two_sched).unwrap_err(), Error::BadKernelConfig);
    let no_sched = "event a {} kernel { events = [a] }";
    assert_eq!(lex_and_parse_kml(no_sched).unwrap_err(), Error::BadKernelConfig);
    let no_events = "kernel { scheduler = fifo }";
    assert_eq!(lex_and_parse_kml(no_events).unwrap_err(), Error::BadKernelConfig);
}

#[test]
fn grammar_violations_are_syntax_errors() {
    let cases = [
        "kernel { events = [] scheduler = fifo }",
        "kernel { events = [a,] scheduler = fifo }",
        "event a { boot } kernel { events = [a] scheduler = fifo }",
        "kernel { events = [a] scheduler = fifo } kernel { }",
        "event a {} kernel { events = [a] scheduler = round }",
        "event a {}",
        "kernel { events = [a] scheduler = fifo } event a {}",
        "",
    ];
    for c in cases {
        assert_eq!(lex_and_parse_kml(c).unwrap_err(), Error::SyntaxError, "{}", c);
    }
}

#[test]
fn lex_error_comes_before_syntax() {
    assert_eq!(lex_and_parse_kml("kernel { ! }").unwrap_err(), Error::LexError);
}
