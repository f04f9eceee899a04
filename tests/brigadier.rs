use azalea::arguments::{boolean, greedy_string, integer, integer_between, string, word};
use azalea::dispatcher::{CommandDispatcher, ParseResults};
use azalea::exceptions::{CommandError, SyntaxErrorKind};
use azalea::execution::{get_bool, get_integer, get_string, ArgumentError, Arguments, CommandSource};
use azalea::registration::RegisterError;
use azalea::string_reader::StringReader;
use azalea::tree::{argument, literal};
use std::cell::Cell;

const FOO: u64 = 1;
const FOO_BAR: u64 = 2;
const DOUBLE_BAR: u64 = 3;
const FAIL_ON_ZERO: u64 = 4;
const SHOW_WORD: u64 = 5;
const SPLIT: u64 = 10;
const ADMIN: u64 = 20;

struct CommandSourceStack {
    player: String,
    id: i32,
    admin: bool,
    runs: Cell<u32>,
}

impl CommandSourceStack {
    fn new(player: &str) -> CommandSourceStack {
        CommandSourceStack { player: player.to_string(), id: 1, admin: false, runs: Cell::new(0) }
    }
}

impl CommandSource for CommandSourceStack {
    fn meets_requirement(&self, requirement: u64) -> bool {
        requirement != ADMIN || self.admin
    }

    fn run_command(&self, command: u64, arguments: &Arguments) -> Result<i32, CommandError> {
        self.runs.set(self.runs.get() + 1);
        match command {
            FOO_BAR => {
                println!(
                    "Bar is {:?} and player is {}",
                    get_integer(arguments, "bar"),
                    self.player
                );
                Ok(2)
            }
            DOUBLE_BAR => Ok(get_integer(arguments, "bar").unwrap() * 2),
            FAIL_ON_ZERO => {
                if self.id == 0 {
                    Err(CommandError::Failed("zero".to_string()))
                } else {
                    Ok(self.id)
                }
            }
            SHOW_WORD => Ok(get_string(arguments, "w").unwrap().len() as i32),
            _ => {
                println!("Called foo with no arguments");
                Ok(1)
            }
        }
    }

    fn fork_sources(&self, modifier: u64, _arguments: &Arguments) -> Result<Vec<Self>, CommandError> {
        if modifier == SPLIT {
            Ok((0..3)
                .map(|i| CommandSourceStack {
                    player: self.player.clone(),
                    id: i,
                    admin: self.admin,
                    runs: Cell::new(0),
                })
                .collect())
        } else {
            Err(CommandError::Failed("no such modifier".to_string()))
        }
    }
}

fn syntax_kind(r: Result<i32, CommandError>) -> (SyntaxErrorKind, usize) {
    match r {
        Err(CommandError::Syntax(e)) => (e.kind, e.cursor),
        other => panic!("expected a syntax error, got {:?}", other),
    }
}

#[test]
fn it_works() {
    let mut dispatcher = CommandDispatcher::new();

    let source = CommandSourceStack::new("player");

    dispatcher
        .register(
            literal("foo")
                .then(argument("bar", integer()).executes(FOO_BAR))
                .executes(FOO),
        )
        .unwrap();

    let parse = dispatcher.parse("foo 123", &source);
    assert_eq!(dispatcher.execute_parsed(&parse, &source).unwrap(), 2);
    assert_eq!(dispatcher.execute("foo", &source).unwrap(), 1);
}

#[test]
fn literal_command_returns_its_value() {
    let mut dispatcher = CommandDispatcher::new();
    dispatcher.register(literal("foo").executes(FOO)).unwrap();
    let source = CommandSourceStack::new("p");
    assert_eq!(dispatcher.execute("foo", &source).unwrap(), 1);
}

#[test]
fn integer_argument_doubled() {
    let mut dispatcher = CommandDispatcher::new();
    dispatcher
        .register(literal("foo").then(argument("bar", integer()).executes(DOUBLE_BAR)))
        .unwrap();
    let source = CommandSourceStack::new("p");
    assert_eq!(dispatcher.execute("foo 123", &source).unwrap(), 246);
    assert_eq!(dispatcher.execute("foo -7", &source).unwrap(), -14);
    // no command on the literal itself
    assert_eq!(
        syntax_kind(dispatcher.execute("foo", &source)),
        (SyntaxErrorKind::DispatcherUnknownCommand, 3)
    );
}

#[test]
fn invalid_integer_points_at_the_argument() {
    let mut dispatcher = CommandDispatcher::new();
    dispatcher
        .register(literal("foo").then(argument("bar", integer()).executes(DOUBLE_BAR)))
        .unwrap();
    let source = CommandSourceStack::new("p");
    let parse = dispatcher.parse("foo abc", &source);
    assert_eq!(parse.cursor, 4);
    assert_eq!(parse.errors.len(), 1);
    assert_eq!(
        syntax_kind(dispatcher.execute_parsed(&parse, &source)),
        (SyntaxErrorKind::ReaderExpectedInt, 4)
    );
    let (kind, cursor) = syntax_kind(dispatcher.execute("foo 12x", &source));
    assert_eq!(kind, SyntaxErrorKind::DispatcherExpectedArgumentSeparator);
    assert_eq!(cursor, 6);
    let (kind, cursor) = syntax_kind(dispatcher.execute("foo 1-2", &source));
    assert_eq!(kind, SyntaxErrorKind::ReaderInvalidInt { end: 7 });
    assert_eq!(cursor, 4);
    let (kind, _) = syntax_kind(dispatcher.execute("foo 3000000000", &source));
    assert_eq!(kind, SyntaxErrorKind::ReaderInvalidInt { end: 14 });
}

#[test]
fn integer_bounds_are_enforced() {
    let mut dispatcher = CommandDispatcher::new();
    dispatcher
        .register(literal("foo").then(argument("bar", integer_between(0, 10)).executes(DOUBLE_BAR)))
        .unwrap();
    let source = CommandSourceStack::new("p");
    assert_eq!(dispatcher.execute("foo 10", &source).unwrap(), 20);
    assert_eq!(
        syntax_kind(dispatcher.execute("foo 11", &source)),
        (SyntaxErrorKind::IntegerTooHigh { found: 11, max: 10 }, 4)
    );
    assert_eq!(
        syntax_kind(dispatcher.execute("foo -1", &source)),
        (SyntaxErrorKind::IntegerTooLow { found: -1, min: 0 }, 4)
    );
}

#[test]
fn redirect_reaches_the_target_subtree() {
    let mut dispatcher = CommandDispatcher::new();
    let target = dispatcher
        .register(literal("teleport").then(argument("bar", integer()).executes(DOUBLE_BAR)))
        .unwrap();
    dispatcher.register(literal("tp").redirect(target)).unwrap();
    let source = CommandSourceStack::new("p");
    let parse = dispatcher.parse("tp 21", &source);
    assert_eq!(parse.contexts.len(), 2);
    assert_eq!(parse.contexts[1].root, target);
    assert_eq!(dispatcher.execute_parsed(&parse, &source).unwrap(), 42);
    assert_eq!(dispatcher.execute("teleport 21", &source).unwrap(), 42);
}

#[test]
fn fork_runs_once_per_derived_source() {
    let mut dispatcher = CommandDispatcher::new();
    let target = dispatcher.register(literal("run").executes(FAIL_ON_ZERO)).unwrap();
    dispatcher.register(literal("each").fork(0, SPLIT)).unwrap();
    // "each" forks back to the root, so "each run" runs "run" for three sources
    let source = CommandSourceStack::new("p");
    assert_eq!(target, 1);
    // ids 0, 1 and 2: the first fails, the other two succeed
    assert_eq!(dispatcher.execute("each run", &source).unwrap(), 2);
}

#[test]
fn fork_counts_every_success() {
    let mut dispatcher = CommandDispatcher::new();
    dispatcher.register(literal("run").executes(FOO)).unwrap();
    dispatcher.register(literal("each").fork(0, SPLIT)).unwrap();
    let source = CommandSourceStack::new("p");
    assert_eq!(dispatcher.execute("each run", &source).unwrap(), 3);
}

#[test]
fn failing_fork_modifier_counts_nothing() {
    let mut dispatcher = CommandDispatcher::new();
    dispatcher.register(literal("run").executes(FOO)).unwrap();
    dispatcher.register(literal("each").fork(0, 99)).unwrap();
    let source = CommandSourceStack::new("p");
    // a forking node swallows the failure and counts no success
    assert_eq!(dispatcher.execute("each run", &source).unwrap(), 0);
}

#[test]
fn duplicate_literal_is_rejected() {
    let mut dispatcher = CommandDispatcher::new();
    dispatcher.register(literal("foo").executes(FOO)).unwrap();
    assert_eq!(
        dispatcher.register(literal("foo").executes(FOO_BAR)),
        Err(RegisterError::InvalidTree)
    );
    assert_eq!(dispatcher.nodes.len(), 2);
    assert_eq!(
        dispatcher.register(literal("x").then(literal("a")).then(literal("a"))),
        Err(RegisterError::InvalidTree)
    );
    assert_eq!(dispatcher.register(literal("y").redirect(40)), Err(RegisterError::InvalidTree));
}

#[test]
fn unknown_command_and_unknown_argument() {
    let mut dispatcher = CommandDispatcher::new();
    dispatcher.register(literal("foo").executes(FOO)).unwrap();
    dispatcher.register(literal("bar").executes(FOO)).unwrap();
    let source = CommandSourceStack::new("p");
    assert_eq!(
        syntax_kind(dispatcher.execute("baz", &source)),
        (SyntaxErrorKind::DispatcherUnknownCommand, 0)
    );
    assert_eq!(
        syntax_kind(dispatcher.execute("foo extra", &source)),
        (SyntaxErrorKind::DispatcherUnknownArgument, 4)
    );
}

#[test]
fn literals_take_priority_over_arguments() {
    let mut dispatcher = CommandDispatcher::new();
    dispatcher
        .register(
            literal("say")
                .then(argument("w", word()).executes(SHOW_WORD))
                .then(literal("hi").executes(FOO)),
        )
        .unwrap();
    let source = CommandSourceStack::new("p");
    assert_eq!(dispatcher.execute("say hi", &source).unwrap(), 1);
    assert_eq!(dispatcher.execute("say hello", &source).unwrap(), 5);
}

#[test]
fn requirement_hides_a_node() {
    let mut dispatcher = CommandDispatcher::new();
    dispatcher.register(literal("stop").require(ADMIN).executes(FOO)).unwrap();
    let player = CommandSourceStack::new("p");
    let mut admin = CommandSourceStack::new("a");
    admin.admin = true;
    assert_eq!(
        syntax_kind(dispatcher.execute("stop", &player)),
        (SyntaxErrorKind::DispatcherUnknownCommand, 0)
    );
    assert_eq!(dispatcher.execute("stop", &admin).unwrap(), 1);
}

#[test]
fn parsing_twice_gives_the_same_result() {
    let mut dispatcher = CommandDispatcher::new();
    dispatcher
        .register(literal("foo").then(argument("bar", integer()).executes(DOUBLE_BAR)))
        .unwrap();
    let source = CommandSourceStack::new("p");
    let a: ParseResults = dispatcher.parse("foo 12 x", &source);
    let b: ParseResults = dispatcher.parse("foo 12 x", &source);
    assert_eq!(format!("{:?}", a), format!("{:?}", b));
}

#[test]
fn bool_and_greedy_arguments() {
    let mut dispatcher = CommandDispatcher::new();
    dispatcher
        .register(literal("flag").then(argument("b", boolean()).executes(FOO)))
        .unwrap();
    dispatcher
        .register(literal("echo").then(argument("w", greedy_string()).executes(SHOW_WORD)))
        .unwrap();
    let source = CommandSourceStack::new("p");
    assert_eq!(dispatcher.execute("flag true", &source).unwrap(), 1);
    assert_eq!(
        syntax_kind(dispatcher.execute("flag maybe", &source)),
        (SyntaxErrorKind::ReaderInvalidBool { end: 10 }, 5)
    );
    assert_eq!(dispatcher.execute("echo a b c", &source).unwrap(), 5);
}

#[test]
fn argument_lookup_by_type() {
    let mut dispatcher = CommandDispatcher::new();
    dispatcher
        .register(literal("flag").then(argument("b", boolean()).executes(FOO)))
        .unwrap();
    let source = CommandSourceStack::new("p");
    let parse = dispatcher.parse("flag false", &source);
    let ctx = &parse.contexts[0];
    assert_eq!(ctx.arguments.len(), 1);
    let arguments = Arguments {
        input: parse.input.clone(),
        entries: vec![azalea::execution::NamedArgument {
            name: vec!['b'],
            range: ctx.arguments[0].range,
            value: ctx.arguments[0].value,
        }],
    };
    assert_eq!(get_bool(&arguments, "b"), Ok(false));
    assert_eq!(get_integer(&arguments, "b"), Err(ArgumentError::WrongType));
    assert_eq!(get_integer(&arguments, "c"), Err(ArgumentError::Missing));
}

#[test]
fn reader_leaves_cursor_on_failure() {
    let mut reader = StringReader::new("abc 12");
    assert!(reader.read_int().is_err());
    assert_eq!(reader.cursor, 0);
    assert_eq!(reader.read_unquoted_string(), vec!['a', 'b', 'c']);
    reader.skip();
    assert_eq!(reader.read_int(), Ok(12));
    assert!(!reader.can_read());
}

fn texts(dispatcher: &CommandDispatcher, input: &str) -> Vec<(String, usize, usize)> {
    let source = CommandSourceStack::new("p");
    let parse = dispatcher.parse(input, &source);
    dispatcher
        .get_completion_suggestions(&parse)
        .into_iter()
        .map(|s| (s.text.into_iter().collect(), s.range.start, s.range.end))
        .collect()
}

#[test]
fn suggestions_for_a_partial_literal() {
    let mut dispatcher = CommandDispatcher::new();
    dispatcher.register(literal("foobar").executes(FOO)).unwrap();
    dispatcher.register(literal("bar").executes(FOO)).unwrap();
    dispatcher.register(literal("foo").executes(FOO)).unwrap();
    dispatcher.register(literal("fob").executes(FOO)).unwrap();
    assert_eq!(
        texts(&dispatcher, "fo"),
        vec![
            ("fob".to_string(), 0, 2),
            ("foo".to_string(), 0, 2),
            ("foobar".to_string(), 0, 2)
        ]
    );
    assert_eq!(texts(&dispatcher, "foob"), vec![("foobar".to_string(), 0, 4)]);
    assert_eq!(texts(&dispatcher, "x"), vec![]);
}

#[test]
fn suggestions_below_a_literal() {
    let mut dispatcher = CommandDispatcher::new();
    dispatcher
        .register(
            literal("foo")
                .then(literal("qux"))
                .then(literal("baz"))
                .then(literal("bar")),
        )
        .unwrap();
    assert_eq!(
        texts(&dispatcher, "foo b"),
        vec![("bar".to_string(), 4, 5), ("baz".to_string(), 4, 5)]
    );
    assert_eq!(
        texts(&dispatcher, "foo "),
        vec![
            ("bar".to_string(), 4, 4),
            ("baz".to_string(), 4, 4),
            ("qux".to_string(), 4, 4)
        ]
    );
}

#[test]
fn quoted_strings() {
    let mut reader = StringReader::new("\"a \\\"b\\\\\" rest");
    assert_eq!(reader.read_quoted_string(), Ok(vec!['a', ' ', '"', 'b', '\\']));
    assert_eq!(reader.cursor, 9);

    let mut reader = StringReader::new("'open");
    let e = reader.read_quoted_string().unwrap_err();
    assert_eq!(e.kind, SyntaxErrorKind::ReaderExpectedEndOfQuote);
    assert_eq!(e.cursor, 5);
    assert_eq!(reader.cursor, 0);

    let mut reader = StringReader::new("\"a\\nb\"");
    let e = reader.read_quoted_string().unwrap_err();
    assert_eq!(e.kind, SyntaxErrorKind::ReaderInvalidEscape { character: 'n' });
    assert_eq!(e.cursor, 3);

    let mut reader = StringReader::new("plain");
    let e = reader.read_quoted_string().unwrap_err();
    assert_eq!(e.kind, SyntaxErrorKind::ReaderExpectedStartOfQuote);
    assert_eq!(reader.cursor, 0);
}

#[test]
fn quotable_string_argument() {
    let mut dispatcher = CommandDispatcher::new();
    dispatcher
        .register(literal("say").then(argument("w", string()).executes(SHOW_WORD)))
        .unwrap();
    let source = CommandSourceStack::new("p");
    assert_eq!(dispatcher.execute("say \"hello world\"", &source).unwrap(), 11);
    assert_eq!(dispatcher.execute("say hi", &source).unwrap(), 2);
    assert_eq!(
        syntax_kind(dispatcher.execute("say \"oops", &source)),
        (SyntaxErrorKind::ReaderExpectedEndOfQuote, 9)
    );
}

#[test]
fn fork_failures_are_reported() {
    let mut dispatcher = CommandDispatcher::new();
    dispatcher.register(literal("run").executes(FAIL_ON_ZERO)).unwrap();
    dispatcher.register(literal("each").fork(0, SPLIT)).unwrap();
    let source = CommandSourceStack::new("p");
    let parse = dispatcher.parse("each run", &source);
    let (result, failures) = dispatcher.execute_reporting(&parse, &source);
    assert_eq!(result.unwrap(), 2);
    assert_eq!(failures.len(), 1);
    assert!(matches!(&failures[0], CommandError::Failed(m) if m == "zero"));
}

#[test]
fn try_then_rejects_a_duplicate_key() {
    let b = literal("x").then(literal("a"));
    let b = b.try_then(literal("b")).ok().unwrap();
    let b = match b.try_then(literal("a")) {
        Ok(_) => panic!("a duplicate sibling was accepted"),
        Err(b) => b,
    };
    assert_eq!(b.nodes.len(), 3);
    assert!(b.try_then(argument("a", integer())).is_err());
}

#[test]
fn suggestions_at_a_cursor() {
    let mut dispatcher = CommandDispatcher::new();
    dispatcher.register(literal("foo").executes(FOO)).unwrap();
    dispatcher.register(literal("fob").executes(FOO)).unwrap();
    dispatcher.register(literal("bar").executes(FOO)).unwrap();
    let source = CommandSourceStack::new("p");
    let got: Vec<(String, usize, usize)> = dispatcher
        .get_completion_suggestions_at("fo and more", 2, &source)
        .into_iter()
        .map(|s| (s.text.into_iter().collect(), s.range.start, s.range.end))
        .collect();
    assert_eq!(got, vec![("fob".to_string(), 0, 2), ("foo".to_string(), 0, 2)]);
    assert_eq!(dispatcher.get_completion_suggestions_at("b", 99, &source).len(), 1);
}
