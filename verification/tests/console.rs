use k9_console::bind::BindError;
use k9_console::console::{callback_outcome, plan, ConsoleError, DebugConsole};
use k9_console::grammar::{parse, MAX_LINE_LENGTH};
use k9_console::tree::{SyntaxNode, SyntaxTree};
use k9_console::interface::ConsoleCommandInterface;
use k9_console::name_map::NameMap;
use k9_console::registry::{CommandBuilder, CommandCallback, CommandRegistry, ConsoleCommand};
use k9_console::value::{CallbackArgumentType, CallbackArgumentValue};
use std::cell::RefCell;
use std::rc::Rc;

type Calls = Rc<RefCell<Vec<Vec<(String, CallbackArgumentValue)>>>>;

enum Behaviour {
    Record,
    Fail(String),
    OpenWindow(String),
    CloseWindow(String),
}

struct Probe {
    calls: Calls,
    behaviour: Behaviour,
}

impl CommandCallback for Probe {
    fn invoke(
        &mut self,
        interface: &mut ConsoleCommandInterface,
        args: NameMap<CallbackArgumentValue>,
    ) -> Result<(), String> {
        let mut seen = Vec::new();
        for i in 0..args.len() {
            seen.push((args.name_at(i).clone(), args.item_at(i).clone()));
        }
        self.calls.borrow_mut().push(seen);
        match &self.behaviour {
            Behaviour::Record => Ok(()),
            Behaviour::Fail(message) => Err(message.clone()),
            Behaviour::OpenWindow(id) => {
                if interface.open_debug_window(id) {
                    Ok(())
                } else {
                    Err("no such window".to_string())
                }
            }
            Behaviour::CloseWindow(id) => {
                if interface.close_debug_window(id) {
                    Ok(())
                } else {
                    Err("no such window".to_string())
                }
            }
        }
    }
}

fn command(calls: &Calls, behaviour: Behaviour, params: &[(&str, CallbackArgumentType, bool)]) -> ConsoleCommand<Probe> {
    let mut builder = CommandBuilder::new("a probe".to_string());
    for (name, kind, optional) in params {
        builder = builder.param(name.to_string(), *kind, *optional);
    }
    builder.build(Probe { calls: calls.clone(), behaviour })
}

fn console_with(commands: Vec<(&str, ConsoleCommand<Probe>)>, windows: &[&str]) -> DebugConsole<Probe> {
    let mut registry = CommandRegistry::new();
    for (name, cmd) in commands {
        registry.register(name.to_string(), cmd);
    }
    DebugConsole::new(registry, windows.iter().map(|w| w.to_string()).collect())
}

fn submit(console: &mut DebugConsole<Probe>, line: &str) -> Result<(), ConsoleError> {
    console.text_edited(line.to_string());
    console.submit()
}

fn calls() -> Calls {
    Rc::new(RefCell::new(Vec::new()))
}

#[test]
fn a_line_runs_its_command_with_the_bound_arguments() {
    let seen = calls();
    let spawn = command(
        &seen,
        Behaviour::Record,
        &[
            ("kind", CallbackArgumentType::String, false),
            ("count", CallbackArgumentType::Int32, true),
            ("loud", CallbackArgumentType::Flag, false),
        ],
    );
    let mut console = console_with(vec![("spawn", spawn)], &[]);
    assert_eq!(submit(&mut console, "  spawn orc --loud count: 3 "), Ok(()));
    assert_eq!(
        *seen.borrow(),
        vec![vec![
            ("count".to_string(), CallbackArgumentValue::Int32(3)),
            ("kind".to_string(), CallbackArgumentValue::String("orc".to_string())),
            ("loud".to_string(), CallbackArgumentValue::Flag(true)),
        ]]
    );
    assert_eq!(console.console_text(), "");
    assert!(console.console_focus_wanted());
    assert!(console.autocomplete().candidates().is_empty());
}

#[test]
fn a_quoted_value_reaches_the_command_decoded() {
    let seen = calls();
    let cmd = command(&seen, Behaviour::Record, &[("name", CallbackArgumentType::String, false)]);
    let mut console = console_with(vec![("cmd", cmd)], &[]);
    assert_eq!(submit(&mut console, "cmd name: \"a\\\"b\\nc\""), Ok(()));
    assert_eq!(
        *seen.borrow(),
        vec![vec![("name".to_string(), CallbackArgumentValue::String("a\"b\nc".to_string()))]]
    );
}

#[test]
fn a_command_called_by_its_name_alone_gets_its_flags_as_false() {
    let seen = calls();
    let cmd = command(&seen, Behaviour::Record, &[("verbose", CallbackArgumentType::Flag, false)]);
    let mut console = console_with(vec![("cmd", cmd)], &[]);
    assert_eq!(submit(&mut console, "cmd"), Ok(()));
    assert_eq!(
        *seen.borrow(),
        vec![vec![("verbose".to_string(), CallbackArgumentValue::Flag(false))]]
    );
}

#[test]
fn an_unknown_command_is_reported_and_nothing_happens() {
    let seen = calls();
    let cmd = command(&seen, Behaviour::OpenWindow("stats".to_string()), &[]);
    let mut console = console_with(vec![("show", cmd)], &["stats"]);
    let before = console.console_commands().len();
    assert_eq!(
        submit(&mut console, "foobar123"),
        Err(ConsoleError::CommandNotFound("foobar123".to_string()))
    );
    assert!(seen.borrow().is_empty());
    assert_eq!(console.console_commands().len(), before);
    assert_eq!(console.interface().is_debug_window_open(&"stats".to_string()), Some(false));
    assert!(!console.interface().debug_trace());
    assert!(!console.interface().exit_called());
    assert_eq!(submit(&mut console, "show"), Ok(()));
    assert_eq!(seen.borrow().len(), 1);
}

#[test]
fn an_ambiguous_line_is_refused_and_no_command_runs() {
    let seen = calls();
    let mut registry = CommandRegistry::new();
    registry.register("quit".to_string(), command(&seen, Behaviour::Record, &[]));
    let mut forest = parse("quit").unwrap();
    forest.extend(parse("quit").unwrap());
    assert_eq!(plan("quit", &forest, &registry).err(), Some(ConsoleError::AmbiguousCommand(2)));
    assert!(seen.borrow().is_empty());
    forest.extend(parse("other 1").unwrap());
    assert_eq!(plan("quit", &forest, &registry).err(), Some(ConsoleError::AmbiguousCommand(3)));
    forest.truncate(1);
    let (name, args) = plan("quit", &forest, &registry).unwrap();
    assert_eq!(name, "quit");
    assert_eq!(args.len(), 0);
    forest.clear();
    assert_eq!(
        plan("qu it", &forest, &registry).err(),
        Some(ConsoleError::SyntaxError("qu it".to_string()))
    );
}

#[test]
fn a_line_outside_the_grammar_is_a_syntax_error() {
    let seen = calls();
    let mut console = console_with(vec![("cmd", command(&seen, Behaviour::Record, &[]))], &[]);
    assert_eq!(
        submit(&mut console, "  cmd \"open  "),
        Err(ConsoleError::SyntaxError("cmd \"open".to_string()))
    );
    assert_eq!(submit(&mut console, ""), Err(ConsoleError::SyntaxError(String::new())));
    assert_eq!(submit(&mut console, "   "), Err(ConsoleError::SyntaxError(String::new())));
    assert!(seen.borrow().is_empty());
    assert_eq!(console.console_text(), "");
}

#[test]
fn a_derivation_of_another_shape_is_reported() {
    let seen = calls();
    let mut registry = CommandRegistry::new();
    registry.register("a".to_string(), command(&seen, Behaviour::Record, &[]));
    let name = SyntaxNode::Nonterminal(SyntaxTree {
        lhs: "<command_name>".to_string(),
        rhs: vec![SyntaxNode::Terminal("a".to_string())],
    });
    let odd = SyntaxTree { lhs: "<command_line>".to_string(), rhs: vec![name, SyntaxNode::Terminal(" ".to_string())] };
    assert_eq!(plan("a ", &vec![odd], &registry).err(), Some(ConsoleError::MalformedTree));
    assert!(seen.borrow().is_empty());
}

#[test]
fn a_line_that_is_too_long_is_reported() {
    let seen = calls();
    let cmd = command(&seen, Behaviour::Record, &[("text", CallbackArgumentType::String, false)]);
    let mut console = console_with(vec![("say", cmd)], &[]);
    let long = format!("say {}", "a".repeat(MAX_LINE_LENGTH - 3));
    assert_eq!(submit(&mut console, &long), Err(ConsoleError::LineTooLong(MAX_LINE_LENGTH + 1)));
    assert!(seen.borrow().is_empty());
    assert_eq!(console.console_text(), "");
    let padded = format!("   say {}   ", "a".repeat(MAX_LINE_LENGTH - 4));
    assert_eq!(submit(&mut console, &padded), Ok(()));
    assert_eq!(seen.borrow().len(), 1);
}

#[test]
fn binding_failures_are_reported_and_no_command_runs() {
    let seen = calls();
    let cmd = command(
        &seen,
        Behaviour::Record,
        &[("x", CallbackArgumentType::Int32, false), ("y", CallbackArgumentType::Int32, false)],
    );
    let mut console = console_with(vec![("add", cmd)], &[]);
    assert_eq!(submit(&mut console, "add 1"), Err(ConsoleError::Bind(BindError::TooFewArguments)));
    assert_eq!(submit(&mut console, "add 1 2 3"), Err(ConsoleError::Bind(BindError::TooManyArguments)));
    assert_eq!(
        submit(&mut console, "add x: 1 x: 2"),
        Err(ConsoleError::Bind(BindError::DuplicateParameter("x".to_string())))
    );
    assert_eq!(
        submit(&mut console, "add 1 two"),
        Err(ConsoleError::Bind(BindError::ArgumentParseError(
            "y".to_string(),
            CallbackArgumentType::Int32,
            "two".to_string()
        )))
    );
    assert!(seen.borrow().is_empty());
    assert_eq!(submit(&mut console, "add 1 2"), Ok(()));
    assert_eq!(seen.borrow().len(), 1);
}

#[test]
fn a_failure_of_the_command_is_reported_as_its_own() {
    let seen = calls();
    let cmd = command(&seen, Behaviour::Fail("out of orcs".to_string()), &[]);
    let mut console = console_with(vec![("spawn", cmd)], &[]);
    assert_eq!(
        submit(&mut console, "spawn"),
        Err(ConsoleError::CallbackError("out of orcs".to_string()))
    );
    assert_eq!(seen.borrow().len(), 1);
    assert_eq!(
        submit(&mut console, "spawn"),
        Err(ConsoleError::CallbackError("out of orcs".to_string()))
    );
    assert_eq!(seen.borrow().len(), 2);
}

#[test]
fn commands_open_and_close_windows_by_name() {
    let seen = calls();
    let open = command(&seen, Behaviour::OpenWindow("stats".to_string()), &[]);
    let close = command(&seen, Behaviour::CloseWindow("stats".to_string()), &[]);
    let lost = command(&seen, Behaviour::OpenWindow("nowhere".to_string()), &[]);
    let mut console = console_with(vec![("open", open), ("close", close), ("lost", lost)], &["stats", "log"]);
    let stats = "stats".to_string();
    let log = "log".to_string();
    assert_eq!(console.interface().is_debug_window_open(&stats), Some(false));
    assert_eq!(submit(&mut console, "open"), Ok(()));
    assert_eq!(console.interface().is_debug_window_open(&stats), Some(true));
    assert_eq!(console.interface().is_debug_window_open(&log), Some(false));
    assert_eq!(submit(&mut console, "close"), Ok(()));
    assert_eq!(console.interface().is_debug_window_open(&stats), Some(false));
    assert_eq!(
        submit(&mut console, "lost"),
        Err(ConsoleError::CallbackError("no such window".to_string()))
    );
    assert_eq!(console.interface().is_debug_window_open(&"nowhere".to_string()), None);
}

#[test]
fn the_tracing_command_is_built_in() {
    let mut console: DebugConsole<Probe> = console_with(Vec::new(), &[]);
    assert!(console.console_commands().contains("k9_debug_console_command"));
    assert!(!console.interface().debug_trace());
    assert_eq!(submit(&mut console, "k9_debug_console_command value: true"), Ok(()));
    assert!(console.interface().debug_trace());
    assert_eq!(submit(&mut console, "k9_debug_console_command 0"), Ok(()));
    assert!(!console.interface().debug_trace());
    assert_eq!(
        submit(&mut console, "k9_debug_console_command"),
        Err(ConsoleError::Bind(BindError::TooFewArguments))
    );
    assert_eq!(
        submit(&mut console, "k9_debug_console_command perhaps"),
        Err(ConsoleError::Bind(BindError::ArgumentParseError(
            "value".to_string(),
            CallbackArgumentType::Bool,
            "perhaps".to_string()
        )))
    );
    assert!(!console.interface().exit_called());
}

#[test]
fn a_command_under_the_name_of_the_tracing_command_is_kept() {
    let seen = calls();
    let cmd = command(&seen, Behaviour::Record, &[]);
    let mut console = console_with(vec![("k9_debug_console_command", cmd)], &[]);
    assert_eq!(submit(&mut console, "k9_debug_console_command"), Ok(()));
    assert_eq!(seen.borrow().len(), 1);
    assert!(!console.interface().debug_trace());
}

#[test]
fn the_exit_command_asks_for_the_end() {
    let mut console: DebugConsole<Probe> = console_with(vec![("quit", ConsoleCommand::exit())], &[]);
    assert!(!console.interface().exit_called());
    assert_eq!(submit(&mut console, "quit now"), Err(ConsoleError::Bind(BindError::TooManyArguments)));
    assert!(!console.interface().exit_called());
    assert_eq!(submit(&mut console, "quit"), Ok(()));
    assert!(console.interface().exit_called());
    assert!(!console.interface().debug_trace());
}

#[test]
fn a_later_registration_replaces_an_earlier_one() {
    let first = calls();
    let second = calls();
    let mut console = console_with(vec![("cmd", command(&first, Behaviour::Record, &[]))], &[]);
    assert!(console.register("cmd".to_string(), command(&second, Behaviour::Record, &[])));
    assert!(!console.register("new".to_string(), command(&second, Behaviour::Record, &[])));
    assert_eq!(submit(&mut console, "cmd"), Ok(()));
    assert!(first.borrow().is_empty());
    assert_eq!(second.borrow().len(), 1);
}

#[test]
fn typing_selects_and_keys_complete() {
    let seen = calls();
    let mut console = console_with(
        vec![
            ("quit", command(&seen, Behaviour::Record, &[])),
            ("query", command(&seen, Behaviour::Record, &[])),
        ],
        &[],
    );
    console.set_has_focus(true);
    console.text_edited("qu".to_string());
    assert_eq!(console.autocomplete().candidates(), &vec!["query".to_string(), "quit".to_string()]);
    assert!(!console.tab());
    assert!(console.autocomplete().shows_list());
    console.arrow_down();
    console.set_cursor(1);
    assert!(!console.arrow_right());
    assert_eq!(console.console_text(), "qu");
    console.set_cursor(2);
    assert!(console.arrow_right());
    assert_eq!(console.console_text(), "quit");
    assert!(console.autocomplete().candidates().is_empty());
    console.text_edited("que".to_string());
    assert!(console.tab());
    assert_eq!(console.console_text(), "query");
    assert_eq!(console.submit(), Ok(()));
    assert_eq!(seen.borrow().len(), 1);
    console.text_edited("q".to_string());
    console.arrow_up();
    assert_eq!(console.autocomplete().selected().map(|(n, i)| (n.clone(), i)), Some(("quit".to_string(), 1)));
    console.clear_text();
    assert_eq!(console.console_text(), "");
    assert!(console.autocomplete().selected().is_none());
}

#[test]
fn focus_and_caret_are_kept() {
    let mut console: DebugConsole<Probe> = console_with(Vec::new(), &[]);
    assert!(!console.has_focus());
    assert!(!console.console_focus_wanted());
    console.set_has_focus(true);
    console.set_console_focus(true);
    assert!(console.has_focus());
    assert!(console.console_focus_wanted());
    console.set_console_focus(false);
    assert!(!console.console_focus_wanted());
    assert!(console.has_focus());
}

#[test]
fn unknown_escape_sequences_are_kept_for_the_reader() {
    let seen = calls();
    let cmd = command(&seen, Behaviour::Record, &[("text", CallbackArgumentType::String, false)]);
    let mut console = console_with(vec![("say", cmd)], &[]);
    assert!(console.escape_warnings().is_empty());
    assert_eq!(submit(&mut console, "say \"a\\qb\\nc\\-\\\\\""), Ok(()));
    assert_eq!(
        *seen.borrow(),
        vec![vec![("text".to_string(), CallbackArgumentValue::String("aqb\nc-\\".to_string()))]]
    );
    assert_eq!(console.escape_warnings(), &vec!["q".to_string(), "-".to_string()]);
    assert_eq!(
        submit(&mut console, "nobody \"\\z\""),
        Err(ConsoleError::CommandNotFound("nobody".to_string()))
    );
    assert_eq!(console.escape_warnings(), &vec!["z".to_string()]);
    assert_eq!(submit(&mut console, "say plain"), Ok(()));
    assert!(console.escape_warnings().is_empty());
    assert_eq!(submit(&mut console, "say \"open"), Err(ConsoleError::SyntaxError("say \"open".to_string())));
    assert!(console.escape_warnings().is_empty());
}

#[test]
fn the_outcome_of_a_command_keeps_its_message() {
    assert_eq!(callback_outcome(Ok(())), Ok(()));
    assert_eq!(
        callback_outcome(Err("out of orcs".to_string())),
        Err(ConsoleError::CallbackError("out of orcs".to_string()))
    );
    assert_eq!(callback_outcome(Err(String::new())), Err(ConsoleError::CallbackError(String::new())));
}

#[test]
fn only_the_given_windows_are_known() {
    let console: DebugConsole<Probe> = console_with(Vec::new(), &["stats", "log", "stats"]);
    for known in ["stats", "log"] {
        assert_eq!(console.interface().is_debug_window_open(&known.to_string()), Some(false));
    }
    for unknown in ["", "extra", "Stats", "stat", "logs", "k9_debug_console_command"] {
        assert_eq!(console.interface().is_debug_window_open(&unknown.to_string()), None);
    }
}

#[test]
fn a_callback_keeps_its_state_from_call_to_call() {
    struct Counter(u32);
    impl CommandCallback for Counter {
        fn invoke(
            &mut self,
            _interface: &mut ConsoleCommandInterface,
            _args: NameMap<CallbackArgumentValue>,
        ) -> Result<(), String> {
            self.0 += 1;
            Err(format!("call {}", self.0))
        }
    }
    let mut registry = CommandRegistry::new();
    registry.register("count".to_string(), ConsoleCommand::new(Counter(0), Vec::new(), String::new()));
    registry.register("other".to_string(), ConsoleCommand::new(Counter(10), Vec::new(), String::new()));
    let mut console = DebugConsole::new(registry, Vec::new());
    for (line, message) in [("count", "call 1"), ("count", "call 2"), ("other", "call 11"), ("count", "call 3")] {
        console.text_edited(line.to_string());
        assert_eq!(console.submit(), Err(ConsoleError::CallbackError(message.to_string())));
    }
    let taken = console.console_commands().lookup("count").unwrap();
    assert!(taken.args().is_empty());
}
