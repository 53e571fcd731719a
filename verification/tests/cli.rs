use sigi::cli::interact::{
    missing_destination, parse_effect, parse_line, print_goodbye_msg, read_failure, unknown_term,
    LineRead, ParseResult, Parsed,
};
use sigi::cli::{run, Cli, Command, FormatConfig, ProgrammaticFormat, UnknownFormat};
use sigi::data::{DataFormat, DataStore, Item, Timestamp, WorkingDir};
use sigi::effects::{Reach, StackEffect};
use sigi::output::{Cell, NoiseLevel, OutputFormat, Report};

const PLAIN: FormatConfig = FormatConfig { quiet: false, silent: false, verbose: false, format: None };

fn tokens(line: &str) -> Vec<String> {
    line.split_ascii_whitespace().map(|w| w.to_string()).collect()
}

fn stack() -> String {
    "work".to_string()
}

fn report(labels: &[&str], rows: &[&[&str]]) -> Report {
    Report {
        always: false,
        labels: labels.iter().map(|l| l.to_string()).collect(),
        rows: rows
            .iter()
            .map(|row| row.iter().map(|cell| Cell::Text(cell.to_string())).collect())
            .collect(),
    }
}

#[test]
fn formats_for_programs_are_read_in_any_case() {
    assert_eq!(ProgrammaticFormat::from_text("csv"), Ok(ProgrammaticFormat::Csv));
    assert_eq!(ProgrammaticFormat::from_text("JSON"), Ok(ProgrammaticFormat::Json));
    assert_eq!(ProgrammaticFormat::from_text("Json-Compact"), Ok(ProgrammaticFormat::JsonCompact));
    assert_eq!(ProgrammaticFormat::from_text("tsv"), Ok(ProgrammaticFormat::Tsv));
    let unknown = ProgrammaticFormat::from_text("XML").unwrap_err();
    assert_eq!(unknown, UnknownFormat { format: "xml".to_string() });
    assert_eq!(unknown.message(), "Unknown format: xml");
    assert!(ProgrammaticFormat::from_text("").is_err());
    assert_eq!("TSV".parse::<ProgrammaticFormat>(), Ok(ProgrammaticFormat::Tsv));
    assert_eq!(
        "yaml".parse::<ProgrammaticFormat>(),
        Err(UnknownFormat { format: "yaml".to_string() })
    );
    assert!(ProgrammaticFormat::from_text("json_compact").is_err());
}

#[test]
fn the_output_that_was_asked_for() {
    assert_eq!(PLAIN.resolve(), None);
    let quiet = FormatConfig { quiet: true, ..PLAIN };
    assert_eq!(quiet.resolve(), Some(OutputFormat::Human(NoiseLevel::Quiet)));
    let silent = FormatConfig { silent: true, quiet: true, ..PLAIN };
    assert_eq!(silent.resolve(), Some(OutputFormat::Silent));
    let verbose = FormatConfig { verbose: true, silent: true, quiet: true, ..PLAIN };
    assert_eq!(verbose.resolve(), Some(OutputFormat::Human(NoiseLevel::Verbose)));
    let all = FormatConfig { format: Some(ProgrammaticFormat::Tsv), ..verbose };
    assert_eq!(all.resolve(), Some(OutputFormat::Tsv));
    for (format, output) in [
        (ProgrammaticFormat::Csv, OutputFormat::Csv),
        (ProgrammaticFormat::Json, OutputFormat::Json),
        (ProgrammaticFormat::JsonCompact, OutputFormat::JsonCompact),
        (ProgrammaticFormat::Tsv, OutputFormat::Tsv),
    ] {
        assert_eq!(FormatConfig { format: Some(format), ..PLAIN }.resolve(), Some(output));
    }
}

#[test]
fn the_command_decides_before_what_stands_before_it() {
    let quiet = FormatConfig { quiet: true, ..PLAIN };
    let json = FormatConfig { format: Some(ProgrammaticFormat::Json), ..PLAIN };
    assert_eq!(quiet.as_fallback(json), OutputFormat::Json);
    assert_eq!(json.as_fallback(quiet), OutputFormat::Human(NoiseLevel::Quiet));
    assert_eq!(quiet.as_fallback(PLAIN), OutputFormat::Human(NoiseLevel::Quiet));
    assert_eq!(PLAIN.as_fallback(PLAIN), OutputFormat::Human(NoiseLevel::Normal));
}

#[test]
fn no_command_means_a_peek_at_the_default_stack() {
    let args = Cli { fc: PLAIN, stack: None, command: None };
    assert_eq!(
        args.plan(),
        (StackEffect::Peek { stack: "sigi".to_string() }, OutputFormat::Human(NoiseLevel::Normal))
    );
    let silent = Cli {
        fc: FormatConfig { silent: true, ..PLAIN },
        stack: Some(stack()),
        command: None,
    };
    assert_eq!(silent.plan(), (StackEffect::Peek { stack: stack() }, OutputFormat::Silent));
}

fn planned(command: Command) -> StackEffect {
    Cli { fc: PLAIN, stack: Some(stack()), command: Some(command) }.plan().0
}

#[test]
fn each_command_means_its_operation() {
    let fc = PLAIN;
    assert_eq!(planned(Command::Complete { fc }), StackEffect::Complete { stack: stack(), index: 0 });
    assert_eq!(planned(Command::Count { fc }), StackEffect::Count { stack: stack() });
    assert_eq!(planned(Command::Delete { fc }), StackEffect::Delete { stack: stack(), index: 0 });
    assert_eq!(planned(Command::DeleteAll { fc }), StackEffect::DeleteAll { stack: stack() });
    assert_eq!(planned(Command::Head { n: Some(3), fc }), StackEffect::Head { stack: stack(), n: 3 });
    assert_eq!(planned(Command::Head { n: None, fc }), StackEffect::Head { stack: stack(), n: 10 });
    assert_eq!(planned(Command::IsEmpty { fc }), StackEffect::IsEmpty { stack: stack() });
    assert_eq!(planned(Command::List { fc }), StackEffect::ListAll { stack: stack() });
    assert_eq!(
        planned(Command::Move { dest: "home".to_string(), fc }),
        StackEffect::Move { stack: stack(), dest: "home".to_string() }
    );
    assert_eq!(
        planned(Command::MoveAll { dest: "home".to_string(), fc }),
        StackEffect::MoveAll { stack: stack(), dest: "home".to_string() }
    );
    assert_eq!(planned(Command::Next { fc }), StackEffect::Next { stack: stack() });
    assert_eq!(planned(Command::Peek { fc }), StackEffect::Peek { stack: stack() });
    assert_eq!(
        planned(Command::Pick { ns: vec![3, 1], fc }),
        StackEffect::Pick { stack: stack(), indices: vec![3, 1] }
    );
    assert_eq!(
        planned(Command::Push { content: vec!["buy".to_string(), "milk".to_string()], fc }),
        StackEffect::Push { stack: stack(), content: "buy milk".to_string() }
    );
    assert_eq!(
        planned(Command::Push { content: vec![], fc }),
        StackEffect::Push { stack: stack(), content: "".to_string() }
    );
    assert_eq!(planned(Command::Rot { fc }), StackEffect::Rot { stack: stack() });
    assert_eq!(planned(Command::Swap { fc }), StackEffect::Swap { stack: stack() });
    assert_eq!(planned(Command::Tail { n: Some(2), fc }), StackEffect::Tail { stack: stack(), n: 2 });
    assert_eq!(planned(Command::Tail { n: None, fc }), StackEffect::Tail { stack: stack(), n: 10 });
}

#[test]
fn what_a_command_line_needs_to_find() {
    let fc = PLAIN;
    let reach = |command: Option<Command>| Cli { fc: PLAIN, stack: Some(stack()), command }.reach();
    assert_eq!(Cli { fc: PLAIN, stack: None, command: None }.reach(), vec!["sigi"]);
    assert_eq!(reach(None), vec!["work"]);
    assert_eq!(reach(Some(Command::Peek { fc })), vec!["work"]);
    assert_eq!(reach(Some(Command::Push { content: vec![], fc })), vec!["work"]);
    assert_eq!(reach(Some(Command::Complete { fc })), vec!["work", "work_history"]);
    assert_eq!(reach(Some(Command::Delete { fc })), vec!["work", "work_history"]);
    assert_eq!(reach(Some(Command::DeleteAll { fc })), vec!["work", "work_history"]);
    assert_eq!(reach(Some(Command::Move { dest: "home".to_string(), fc })), vec!["work", "home"]);
    assert_eq!(
        reach(Some(Command::MoveAll { dest: "home".to_string(), fc })),
        vec!["work", "home"]
    );
    for command in [
        Command::Count { fc },
        Command::Head { n: None, fc },
        Command::IsEmpty { fc },
        Command::List { fc },
        Command::Next { fc },
        Command::Pick { ns: vec![1], fc },
        Command::Rot { fc },
        Command::Swap { fc },
        Command::Tail { n: Some(1), fc },
    ] {
        let args = Cli { fc: PLAIN, stack: Some(stack()), command: Some(command) };
        let names = args.reach();
        assert_eq!(Reach::Stacks(names), args.plan().0.reach());
    }
}

#[test]
fn running_a_command_line() {
    let mut store = DataStore::new(WorkingDir::HomeDir, DataFormat::SigiJson);
    store.hold("sigi", vec![Item::created_at("a", Timestamp { secs: 1, nanos: 0 })]);
    let json = FormatConfig { format: Some(ProgrammaticFormat::Json), ..PLAIN };
    let push = Cli {
        fc: FormatConfig { quiet: true, ..PLAIN },
        stack: None,
        command: Some(Command::Push { content: vec!["b".to_string()], fc: json }),
    };
    let (format, result) = run(push, &mut store);
    assert_eq!(format, OutputFormat::Json);
    assert_eq!(result.unwrap().reports, vec![report(&["action", "item"], &[&["Created", "b"]])]);
    let items = store.load("sigi").unwrap();
    assert_eq!(items.len(), 2);
    assert_eq!(items[1].contents, "b");
    let (format, result) = run(Cli { fc: PLAIN, stack: None, command: None }, &mut store);
    assert_eq!(format, OutputFormat::Human(NoiseLevel::Normal));
    assert_eq!(result.unwrap().reports[0].rows[0][1], Cell::Text("b".to_string()));
}

#[test]
fn words_that_name_operations() {
    let cases: Vec<(&str, StackEffect)> = vec![
        ("complete", StackEffect::Complete { stack: stack(), index: 0 }),
        ("done", StackEffect::Complete { stack: stack(), index: 0 }),
        ("finish", StackEffect::Complete { stack: stack(), index: 0 }),
        ("fulfill", StackEffect::Complete { stack: stack(), index: 0 }),
        ("count", StackEffect::Count { stack: stack() }),
        ("size", StackEffect::Count { stack: stack() }),
        ("length", StackEffect::Count { stack: stack() }),
        ("delete", StackEffect::Delete { stack: stack(), index: 0 }),
        ("pop", StackEffect::Delete { stack: stack(), index: 0 }),
        ("remove", StackEffect::Delete { stack: stack(), index: 0 }),
        ("cancel", StackEffect::Delete { stack: stack(), index: 0 }),
        ("drop", StackEffect::Delete { stack: stack(), index: 0 }),
        ("delete-all", StackEffect::DeleteAll { stack: stack() }),
        ("purge", StackEffect::DeleteAll { stack: stack() }),
        ("pop-all", StackEffect::DeleteAll { stack: stack() }),
        ("remove-all", StackEffect::DeleteAll { stack: stack() }),
        ("cancel-all", StackEffect::DeleteAll { stack: stack() }),
        ("drop-all", StackEffect::DeleteAll { stack: stack() }),
        ("head", StackEffect::Head { stack: stack(), n: 10 }),
        ("top 3", StackEffect::Head { stack: stack(), n: 3 }),
        ("first x", StackEffect::Head { stack: stack(), n: 10 }),
        ("is-empty", StackEffect::IsEmpty { stack: stack() }),
        ("empty", StackEffect::IsEmpty { stack: stack() }),
        ("list", StackEffect::ListAll { stack: stack() }),
        ("ls", StackEffect::ListAll { stack: stack() }),
        ("snoop", StackEffect::ListAll { stack: stack() }),
        ("show", StackEffect::ListAll { stack: stack() }),
        ("all", StackEffect::ListAll { stack: stack() }),
        ("list-stacks", StackEffect::ListStacks),
        ("stacks", StackEffect::ListStacks),
        ("move home now", StackEffect::Move { stack: stack(), dest: "home".to_string() }),
        ("move-all home", StackEffect::MoveAll { stack: stack(), dest: "home".to_string() }),
        ("next", StackEffect::Next { stack: stack() }),
        ("later", StackEffect::Next { stack: stack() }),
        ("cycle", StackEffect::Next { stack: stack() }),
        ("bury", StackEffect::Next { stack: stack() }),
        ("peek", StackEffect::Peek { stack: stack() }),
        ("pick 3 x 1 +2", StackEffect::Pick { stack: stack(), indices: vec![3, 1, 2] }),
        ("pick", StackEffect::Pick { stack: stack(), indices: vec![] }),
        ("push buy   milk", StackEffect::Push { stack: stack(), content: "buy milk".to_string() }),
        ("create", StackEffect::Push { stack: stack(), content: "".to_string() }),
        ("add x", StackEffect::Push { stack: stack(), content: "x".to_string() }),
        ("do x", StackEffect::Push { stack: stack(), content: "x".to_string() }),
        ("start x", StackEffect::Push { stack: stack(), content: "x".to_string() }),
        ("new x", StackEffect::Push { stack: stack(), content: "x".to_string() }),
        ("rot", StackEffect::Rot { stack: stack() }),
        ("rotate", StackEffect::Rot { stack: stack() }),
        ("swap", StackEffect::Swap { stack: stack() }),
        ("tail 7", StackEffect::Tail { stack: stack(), n: 7 }),
        ("bottom", StackEffect::Tail { stack: stack(), n: 10 }),
        ("last 0", StackEffect::Tail { stack: stack(), n: 0 }),
    ];
    for (line, effect) in cases {
        assert_eq!(parse_effect(&tokens(line), "work"), Parsed::Effect(effect), "{}", line);
    }
}

#[test]
fn words_that_name_nothing() {
    assert_eq!(parse_effect(&tokens("frobnicate"), "work"), Parsed::NoSuchTerm);
    assert_eq!(parse_effect(&tokens("PUSH x"), "work"), Parsed::NoSuchTerm);
    assert_eq!(parse_effect(&tokens("edit"), "work"), Parsed::NoSuchTerm);
    assert_eq!(parse_effect(&vec![], "work"), Parsed::NoSuchTerm);
    assert_eq!(parse_effect(&tokens("move"), "work"), Parsed::NoDestination);
    assert_eq!(parse_effect(&tokens("move-all"), "work"), Parsed::NoDestination);
}

#[test]
fn lines_at_the_prompt() {
    assert_eq!(parse_line(LineRead::Interrupted, "work"), ParseResult::Exit("CTRL-C".to_string()));
    assert_eq!(parse_line(LineRead::Eof, "work"), ParseResult::Exit("CTRL-D".to_string()));
    assert_eq!(
        parse_line(LineRead::Failed("broken pipe".to_string()), "work"),
        ParseResult::Error("broken pipe".to_string())
    );
    let line = |text: &str| parse_line(LineRead::Line(text.to_string()), "work");
    assert_eq!(line(""), ParseResult::NoContent);
    assert_eq!(line("  \t "), ParseResult::NoContent);
    assert_eq!(line("?"), ParseResult::ShortHelp);
    assert_eq!(line(" help me"), ParseResult::LongHelp);
    assert_eq!(line("HELP"), ParseResult::LongHelp);
    assert_eq!(line("exit"), ParseResult::Exit("exit".to_string()));
    assert_eq!(line("Quit now"), ParseResult::Exit("quit".to_string()));
    assert_eq!(line("Q"), ParseResult::Exit("q".to_string()));
    assert_eq!(
        line("push a  new thing"),
        ParseResult::DoEffect(StackEffect::Push {
            stack: stack(),
            content: "a new thing".to_string()
        })
    );
    assert_eq!(line("Push x"), ParseResult::Unknown("push".to_string()));
    assert_eq!(line("wat"), ParseResult::Unknown("wat".to_string()));
    assert_eq!(line("move"), ParseResult::NoDestination("move".to_string()));
    assert_eq!(line("move-all"), ParseResult::NoDestination("move-all".to_string()));
}

#[test]
fn what_the_prompt_has_to_say() {
    assert_eq!(
        print_goodbye_msg("CTRL-D"),
        report(&["exit-reason", "exit-message"], &[&["CTRL-D", "Buen biåhe!"]])
    );
    assert_eq!(
        missing_destination(),
        report(&["error"], &[&["No destination stack was provided"]])
    );
    assert_eq!(unknown_term("wat"), report(&["term", "error"], &[&["wat", "unknown term"]]));
    assert_eq!(
        read_failure("broken pipe"),
        report(&["exit-message", "exit-reason"], &[&["Error"], &["broken pipe"]])
    );
}
