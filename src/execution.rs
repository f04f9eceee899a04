use vstd::prelude::*;
use crate::arguments::{ArgumentValue, is_quote};
use crate::context::{ContextView, ParsedArgument, StringRange, contexts_view};
use crate::dispatcher::{CommandDispatcher, ParseResults, ParseView, parse_spec};
use crate::exceptions::{CommandError, CommandSyntaxException, SyntaxErrorKind, syntax_error};
use crate::string_reader::{StringReader, copy_range, read_quoted_spec};
use crate::text::chars_of;
use crate::tree::{NodeKind, NodeView};

verus! {

/// The caller's side of a command: a source runs the commands, checks the
/// requirements and applies the fork modifiers that a tree names by id.
pub trait CommandSource: Sized {
    /// Whether this source may use nodes with the requirement `requirement`.
    fn meets_requirement(&self, requirement: u64) -> bool;

    /// Runs the command `command` with the arguments that were read for it.
    fn run_command(&self, command: u64, arguments: &Arguments) -> Result<i32, CommandError>;

    /// The sources that the modifier `modifier` derives from this one.
    fn fork_sources(&self, modifier: u64, arguments: &Arguments) -> Result<Vec<Self>, CommandError>;
}

/// An argument value under its node's name.
#[derive(Debug)]
pub struct NamedArgument {
    pub name: Vec<char>,
    pub range: StringRange,
    pub value: ArgumentValue,
}

/// The arguments of one context, handed to commands and modifiers.
#[derive(Debug)]
pub struct Arguments {
    pub input: Vec<char>,
    pub entries: Vec<NamedArgument>,
}

/// Why looking up an argument failed.
#[derive(Copy, Clone, Debug, PartialEq, Eq, Structural)]
pub enum ArgumentError {
    /// No argument has that name.
    Missing,
    /// The argument holds a value of another type.
    WrongType,
}

/// The index of the last entry named `name` among the first `k` entries.
pub open spec fn last_named(entries: Seq<NamedArgument>, name: Seq<char>, k: int) -> Option<int>
    decreases k,
{
    if k <= 0 {
        None
    } else if entries[k - 1].name@ == name {
        Some(k - 1)
    } else {
        last_named(entries, name, k - 1)
    }
}

proof fn lemma_last_named(entries: Seq<NamedArgument>, name: Seq<char>, k: int)
    ensures
        last_named(entries, name, k) matches Some(i) ==> 0 <= i < k && entries[i].name@ == name,
    decreases k,
{
    if k > 0 {
        lemma_last_named(entries, name, k - 1);
    }
}

impl Arguments {
    /// The index of the entry named `name` that was read last.
    pub fn find(&self, name: &str) -> (r: Option<usize>)
        ensures
            r matches Some(j) ==> last_named(self.entries@, name@, self.entries@.len() as int) == Some(
                j as int,
            ),
            r is None ==> last_named(self.entries@, name@, self.entries@.len() as int) is None,
            r matches Some(i) ==> i < self.entries@.len(),
    {
        proof {
            lemma_last_named(self.entries@, name@, self.entries@.len() as int);
        }
        let key = chars_of(name);
        let mut k = self.entries.len();
        while k > 0
            invariant
                k <= self.entries@.len(),
                key@ == name@,
                last_named(self.entries@, name@, self.entries@.len() as int) == last_named(
                    self.entries@,
                    name@,
                    k as int,
                ),
            decreases k,
        {
            if crate::text::chars_equal(&self.entries[k - 1].name, &key) {
                return Some(k - 1);
            }
            k = k - 1;
        }
        None
    }
}

/// The integer argument named `name`.
pub fn get_integer(arguments: &Arguments, name: &str) -> (r: Result<i32, ArgumentError>)
    ensures
        match last_named(arguments.entries@, name@, arguments.entries@.len() as int) {
            None => r == Err::<i32, ArgumentError>(ArgumentError::Missing),
            Some(i) => match arguments.entries@[i].value {
                ArgumentValue::Integer(v) => r == Ok::<i32, ArgumentError>(v),
                _ => r == Err::<i32, ArgumentError>(ArgumentError::WrongType),
            },
        },
{
    proof {
        lemma_last_named(arguments.entries@, name@, arguments.entries@.len() as int);
    }
    match arguments.find(name) {
        None => Err(ArgumentError::Missing),
        Some(i) => match arguments.entries[i].value {
            ArgumentValue::Integer(v) => Ok(v),
            _ => Err(ArgumentError::WrongType),
        },
    }
}

/// The boolean argument named `name`.
pub fn get_bool(arguments: &Arguments, name: &str) -> (r: Result<bool, ArgumentError>)
    ensures
        match last_named(arguments.entries@, name@, arguments.entries@.len() as int) {
            None => r == Err::<bool, ArgumentError>(ArgumentError::Missing),
            Some(i) => match arguments.entries@[i].value {
                ArgumentValue::Bool(b) => r == Ok::<bool, ArgumentError>(b),
                _ => r == Err::<bool, ArgumentError>(ArgumentError::WrongType),
            },
        },
{
    proof {
        lemma_last_named(arguments.entries@, name@, arguments.entries@.len() as int);
    }
    match arguments.find(name) {
        None => Err(ArgumentError::Missing),
        Some(i) => match arguments.entries[i].value {
            ArgumentValue::Bool(b) => Ok(b),
            _ => Err(ArgumentError::WrongType),
        },
    }
}

/// The text that a text argument read from `input[start..end]`: the unescaped
/// body where it is quoted, otherwise the input itself.
pub open spec fn text_value(input: Seq<char>, start: int, end: int) -> Seq<char> {
    if start < end && is_quote(input[start]) {
        match read_quoted_spec(input, start) {
            Ok((v, _)) => v,
            Err(_) => input.subrange(start, end),
        }
    } else {
        input.subrange(start, end)
    }
}

/// The text argument named `name`.
pub fn get_string(arguments: &Arguments, name: &str) -> (r: Result<Vec<char>, ArgumentError>)
    ensures
        match last_named(arguments.entries@, name@, arguments.entries@.len() as int) {
            None => r matches Err(ArgumentError::Missing),
            Some(i) => {
                let a = arguments.entries@[i];
                if a.value is Text && a.range.start <= a.range.end <= arguments.input@.len() {
                    r matches Ok(t) && t@ == text_value(
                        arguments.input@,
                        a.range.start as int,
                        a.range.end as int,
                    )
                } else {
                    r matches Err(ArgumentError::WrongType)
                }
            },
        },
{
    proof {
        lemma_last_named(arguments.entries@, name@, arguments.entries@.len() as int);
    }
    match arguments.find(name) {
        None => Err(ArgumentError::Missing),
        Some(i) => {
            let a = &arguments.entries[i];
            match a.value {
                ArgumentValue::Text => {
                    if a.range.start <= a.range.end && a.range.end <= arguments.input.len() {
                        let raw = copy_range(&arguments.input, a.range.start, a.range.end);
                        if a.range.start < a.range.end && (arguments.input[a.range.start] == '"'
                            || arguments.input[a.range.start] == '\'') {
                            let mut reader = StringReader::from_chars(
                                copy_range(&arguments.input, 0, arguments.input.len()),
                                a.range.start,
                            );
                            proof {
                                assert(reader.string@ =~= arguments.input@);
                            }
                            match reader.read_quoted_string() {
                                Ok(v) => Ok(v),
                                Err(_) => Ok(raw),
                            }
                        } else {
                            Ok(raw)
                        }
                    } else {
                        Err(ArgumentError::WrongType)
                    }
                },
                _ => Err(ArgumentError::WrongType),
            }
        },
    }
}

/// The error that executing a parse reports before running anything: input left
/// over, or nothing matched.
pub open spec fn leftover_error(p: ParseView, input_len: int) -> Option<CommandSyntaxException> {
    if p.cursor < input_len {
        if p.errors.len() == 1 {
            Some(p.errors[0].1)
        } else if p.contexts.len() == 0 || p.contexts[0].nodes.len() == 0 {
            Some(syntax_error(SyntaxErrorKind::DispatcherUnknownCommand, p.cursor))
        } else {
            Some(syntax_error(SyntaxErrorKind::DispatcherUnknownArgument, p.cursor))
        }
    } else {
        None
    }
}

/// The command attached to the last node that a context matched, if any.
pub open spec fn terminal_command(t: Seq<NodeView>, ctx: crate::context::ContextView) -> Option<u64> {
    if ctx.nodes.len() == 0 || ctx.nodes.last().node >= t.len() {
        None
    } else {
        t[ctx.nodes.last().node as int].command
    }
}

/// What running one context and those after it gave: whether a command was
/// found, the sum of the results, how many commands succeeded, and the failures
/// of branches after a fork, which do not stop the other branches.
pub struct Tally {
    pub found: bool,
    pub result: i32,
    pub successes: i32,
    pub failures: Vec<CommandError>,
}

impl Tally {
    /// A tally with nothing found and nothing run.
    pub fn empty(found: bool) -> (r: Tally)
        ensures
            r.found == found,
            r.result == 0,
            r.successes == 0,
            r.failures@.len() == 0,
    {
        Tally { found, result: 0, successes: 0, failures: Vec::new() }
    }

    /// The tally of one command that returned `v`.
    pub fn ran(v: i32) -> (r: Tally)
        ensures
            r.found,
            r.result == v,
            r.successes == 1,
            r.failures@.len() == 0,
    {
        Tally { found: true, result: v, successes: 1, failures: Vec::new() }
    }

    /// The tally of one branch that failed with `e` after a fork.
    pub fn failed(e: CommandError) -> (r: Tally)
        ensures
            r.found,
            r.result == 0,
            r.successes == 0,
            r.failures@ == seq![e],
    {
        let mut failures = Vec::new();
        failures.push(e);
        Tally { found: true, result: 0, successes: 0, failures }
    }
}

/// Adds what one branch gave to the running tally. Results and successes add up
/// (wrapping as `i32`) and failures are kept in order; a failed branch ends the
/// run unless a fork lies before it.
pub fn add_branch(total: Tally, branch: Result<Tally, CommandError>, forks: bool) -> (r: Result<Tally, CommandError>)
    ensures
        match branch {
            Ok(b) => r matches Ok(u) && u.found == total.found && u.result
                == vstd::wrapping::i32_specs::wrapping_add(total.result, b.result) && u.successes
                == vstd::wrapping::i32_specs::wrapping_add(total.successes, b.successes) && u.failures@
                == total.failures@ + b.failures@,
            Err(e) => if forks {
                r matches Ok(u) && u.found == total.found && u.result == total.result && u.successes
                    == total.successes && u.failures@ == total.failures@
            } else {
                r matches Err(x) && x == e
            },
        },
{
    match branch {
        Ok(b) => {
            let mut total = total;
            let mut b = b;
            let ghost tf = total.failures@;
            let ghost bf = b.failures@;
            total.result = total.result.wrapping_add(b.result);
            total.successes = total.successes.wrapping_add(b.successes);
            total.failures.append(&mut b.failures);
            assert(total.failures@ =~= tf + bf);
            Ok(total)
        },
        Err(e) => {
            if forks {
                Ok(total)
            } else {
                Err(e)
            }
        },
    }
}

/// The value that a run gives: an error passes on unchanged; with nothing found
/// it is `unknown`; after a fork it is the number of successes, otherwise the sum
/// of the results.
pub open spec fn finish_value(t: Result<Tally, CommandError>, forked: bool, unknown: CommandError) -> Result<i32, CommandError> {
    match t {
        Err(e) => Err(e),
        Ok(u) => if !u.found {
            Err(unknown)
        } else if forked {
            Ok(u.successes)
        } else {
            Ok(u.result)
        },
    }
}

/// Turns what a run gave into the value of the execution and the failures of
/// forked branches.
pub fn finish(t: Result<Tally, CommandError>, forked: bool, unknown: CommandError) -> (r: (
    Result<i32, CommandError>,
    Vec<CommandError>,
))
    ensures
        r.0 == finish_value(t, forked, unknown),
        t matches Ok(u) ==> r.1@ == u.failures@,
        t is Err ==> r.1@.len() == 0,
{
    match t {
        Err(e) => (Err(e), Vec::new()),
        Ok(u) => {
            if !u.found {
                (Err(unknown), u.failures)
            } else if forked {
                (Ok(u.successes), u.failures)
            } else {
                (Ok(u.result), u.failures)
            }
        },
    }
}

/// The entries handed to callbacks for the parsed arguments `args`: one for each
/// argument of an argument node, in order, under that node's name.
pub open spec fn argument_entries(t: Seq<NodeView>, args: Seq<ParsedArgument>) -> Seq<(Seq<char>, StringRange, ArgumentValue)>
    decreases args.len(),
{
    if args.len() == 0 {
        Seq::empty()
    } else {
        let rest = argument_entries(t, args.drop_last());
        let a = args.last();
        if a.node < t.len() && t[a.node as int].kind is Argument {
            rest.push((t[a.node as int].kind->Argument_0, a.range, a.value))
        } else {
            rest
        }
    }
}

pub open spec fn entries_view(e: Seq<NamedArgument>) -> Seq<(Seq<char>, StringRange, ArgumentValue)> {
    e.map_values(|x: NamedArgument| (x.name@, x.range, x.value))
}

/// The arguments handed to a callback for context `ctx` of a parse of `input`.
pub open spec fn arguments_for(t: Seq<NodeView>, input: Seq<char>, ctx: ContextView, a: Arguments) -> bool {
    a.input@ == input && entries_view(a.entries@) == argument_entries(t, ctx.arguments)
}

/// The last node that a context matched, where it is a node of the tree.
pub open spec fn last_node(t: Seq<NodeView>, ctx: ContextView) -> Option<usize> {
    if ctx.nodes.len() == 0 || ctx.nodes.last().node >= t.len() {
        None
    } else {
        Some(ctx.nodes.last().node)
    }
}

/// Contexts `i` onwards each matched a node of the tree, and the last one ends at
/// a node with a command: the chain can be run.
pub open spec fn runnable_from(t: Seq<NodeView>, cs: Seq<ContextView>, i: int) -> bool {
    &&& 0 <= i < cs.len()
    &&& forall|j: int| i <= j < cs.len() ==> (#[trigger] last_node(t, cs[j])) is Some
    &&& terminal_command(t, cs.last()) is Some
}

/// The error of the library's own that executing a parse reports: input left
/// over, or a chain that cannot be run.
pub open spec fn library_error(t: Seq<NodeView>, p: ParseView, input_len: int) -> Option<CommandSyntaxException> {
    match leftover_error(p, input_len) {
        Some(x) => Some(x),
        None => if runnable_from(t, p.contexts, 0) {
            None
        } else {
            Some(syntax_error(SyntaxErrorKind::DispatcherUnknownCommand, p.cursor))
        },
    }
}

/// Some context before the last one ends at a forking node.
pub open spec fn chain_forked(t: Seq<NodeView>, cs: Seq<ContextView>) -> bool {
    exists|j: int| 0 <= j < cs.len() - 1 && #[trigger] ends_in_fork(t, cs[j])
}

/// A context's last node is a node of the tree that forks.
pub open spec fn ends_in_fork(t: Seq<NodeView>, ctx: ContextView) -> bool {
    match last_node(t, ctx) {
        Some(n) => t[n as int].forks,
        None => false,
    }
}

impl CommandDispatcher {
    /// A dispatcher with an empty tree.
    pub fn new() -> (r: CommandDispatcher)
        ensures
            r.wf(),
            r.ok(),
            r.view() == seq![NodeView {
                kind: crate::tree::NodeKindView::Root,
                children: Seq::empty(),
                command: None,
                requirement: None,
                redirect: None,
                forks: false,
                modifier: None,
            }],
    {
        let mut nodes = Vec::new();
        nodes.push(crate::tree::CommandNode::new(NodeKind::Root));
        let r = CommandDispatcher { nodes };
        assert(r.view() =~= seq![nodes@[0]@]);
        r
    }

    /// For each node, whether `source` meets its requirement; a node without
    /// one is always usable.
    pub fn usable_nodes<S: CommandSource>(&self, source: &S) -> (r: Vec<bool>)
        ensures
            r@.len() == self.view().len(),
            forall|i: int| 0 <= i < r@.len() && self.view()[i].requirement is None ==> r@[i],
    {
        let mut r: Vec<bool> = Vec::new();
        let mut i: usize = 0;
        while i < self.nodes.len()
            invariant
                i <= self.nodes@.len(),
                r@.len() == i,
                forall|j: int| 0 <= j < i && self.view()[j].requirement is None ==> r@[j],
            decreases self.nodes@.len() - i,
        {
            let ok = match self.nodes[i].requirement {
                None => true,
                Some(q) => source.meets_requirement(q),
            };
            r.push(ok);
            i = i + 1;
        }
        r
    }

    /// Parses `input` for `source`: nodes whose requirement the source does not
    /// meet are passed over as if they did not match.
    pub fn parse<S: CommandSource>(&self, input: &str, source: &S) -> (r: ParseResults)
        requires
            self.wf(),
        ensures
            r.input@ == input@,
            exists|usable: Seq<bool>|
                usable.len() == self.view().len() && (forall|i: int|
                    0 <= i < usable.len() && self.view()[i].requirement is None ==> #[trigger] usable[i])
                    && r.view() == parse_spec(self.view(), input@, usable),
    {
        let usable = self.usable_nodes(source);
        let r = self.parse_with(chars_of(input), &usable);
        assert(r.view() == parse_spec(self.view(), input@, usable@));
        r
    }

    /// The arguments of context `i` of a parse, under their names.
    pub fn arguments_of(&self, parse: &ParseResults, i: usize) -> (r: Arguments)
        requires
            i < parse.contexts@.len(),
        ensures
            arguments_for(self.view(), parse.input@, parse.contexts@[i as int]@, r),
    {
        let ghost t = self.view();
        let ctx = &parse.contexts[i];
        let mut entries: Vec<NamedArgument> = Vec::new();
        let mut k: usize = 0;
        while k < ctx.arguments.len()
            invariant
                t == self.view(),
                k <= ctx.arguments@.len(),
                entries_view(entries@) == argument_entries(t, ctx.arguments@.subrange(0, k as int)),
            decreases ctx.arguments@.len() - k,
        {
            let a = ctx.arguments[k];
            let ghost before = entries_view(entries@);
            proof {
                let sub = ctx.arguments@.subrange(0, k as int + 1);
                assert(sub.drop_last() =~= ctx.arguments@.subrange(0, k as int));
                assert(sub.last() == a);
            }
            if a.node < self.nodes.len() {
                assert(t[a.node as int].kind == self.nodes@[a.node as int].kind@);
                match &self.nodes[a.node].kind {
                    NodeKind::Argument(name, _) => {
                        let copied = copy_range(name, 0, name.len());
                        assert(copied@ =~= name@);
                        entries.push(NamedArgument { name: copied, range: a.range, value: a.value });
                        assert(entries_view(entries@) =~= before.push((name@, a.range, a.value)));
                    },
                    _ => {},
                }
            }
            k = k + 1;
        }
        assert(ctx.arguments@.subrange(0, k as int) =~= ctx.arguments@);
        let input = copy_range(&parse.input, 0, parse.input.len());
        assert(input@ =~= parse.input@);
        Arguments { input, entries }
    }

    /// The command that context `i` ends at, with the arguments handed to it.
    pub fn command_call(&self, parse: &ParseResults, i: usize) -> (r: Option<(u64, Arguments)>)
        requires
            i < parse.contexts@.len(),
        ensures
            r is None <==> terminal_command(self.view(), parse.contexts@[i as int]@) is None,
            r matches Some((c, a)) ==> terminal_command(self.view(), parse.contexts@[i as int]@) == Some(c)
                && arguments_for(self.view(), parse.input@, parse.contexts@[i as int]@, a),
    {
        let ctx = &parse.contexts[i];
        if ctx.nodes.len() == 0 {
            return None;
        }
        let last = ctx.nodes[ctx.nodes.len() - 1].node;
        if last >= self.nodes.len() {
            return None;
        }
        assert(self.view()[last as int].command == self.nodes@[last as int].command);
        match self.nodes[last].command {
            None => None,
            Some(c) => Some((c, self.arguments_of(parse, i))),
        }
    }

    /// The modifier of the node that context `i` ends at, with the arguments
    /// handed to it.
    pub fn fork_call(&self, parse: &ParseResults, i: usize) -> (r: Option<(u64, Arguments)>)
        requires
            i < parse.contexts@.len(),
            last_node(self.view(), parse.contexts@[i as int]@) is Some,
        ensures
            r is None <==> self.view()[last_node(self.view(), parse.contexts@[i as int]@)->0 as int].modifier
                is None,
            r matches Some((m, a)) ==> self.view()[last_node(self.view(), parse.contexts@[i as int]@)->0 as int].modifier
                == Some(m) && arguments_for(self.view(), parse.input@, parse.contexts@[i as int]@, a),
    {
        let ctx = &parse.contexts[i];
        let last = ctx.nodes[ctx.nodes.len() - 1].node;
        assert(self.view()[last as int].modifier == self.nodes@[last as int].modifier);
        match self.nodes[last].modifier {
            None => None,
            Some(m) => Some((m, self.arguments_of(parse, i))),
        }
    }

    /// Runs context `i` of a parse and those after it for `source`. A context
    /// whose last node redirects hands on to the next one, once for each source
    /// that its modifier derives (or for `source` itself without a modifier);
    /// the last context runs its command. Where the chain from `i` can be run, a
    /// command is always found.
    pub fn run_chain<S: CommandSource>(&self, parse: &ParseResults, i: usize, source: &S, forked: bool) -> (r:
        Result<Tally, CommandError>)
        requires
            i < parse.contexts@.len(),
        ensures
            runnable_from(self.view(), contexts_view(parse.contexts@), i as int) ==> (r matches Ok(t) ==> t.found),
        decreases parse.contexts@.len() - i,
    {
        let ghost cs = contexts_view(parse.contexts@);
        let ctx = &parse.contexts[i];
        let n = parse.contexts.len();
        assert(cs[i as int] == parse.contexts@[i as int]@);
        if i + 1 < n {
            assert(cs[i + 1] == parse.contexts@[i + 1]@);
            if !parse.contexts[i + 1].has_nodes() || !ctx.has_nodes() {
                assert(last_node(self.view(), cs[i + 1]) is None || last_node(self.view(), cs[i as int]) is None);
                return Ok(Tally::empty(false));
            }
            let last = ctx.nodes[ctx.nodes.len() - 1].node;
            if last >= self.nodes.len() {
                assert(last_node(self.view(), cs[i as int]) is None);
                return Ok(Tally::empty(false));
            }
            proof {
                if runnable_from(self.view(), cs, i as int) {
                    assert forall|j: int| i + 1 <= j < cs.len() implies (#[trigger] last_node(self.view(), cs[j])) is Some by {
                        assert(last_node(self.view(), cs[j]) is Some);
                    }
                    assert(runnable_from(self.view(), cs, i + 1));
                }
            }
            let forks = forked || self.nodes[last].forks;
            match self.fork_call(parse, i) {
                None => self.run_chain(parse, i + 1, source, forks),
                Some((m, arguments)) => {
                    match source.fork_sources(m, &arguments) {
                        Err(e) => {
                            if forks {
                                Ok(Tally::failed(e))
                            } else {
                                Err(e)
                            }
                        },
                        Ok(sources) => {
                            let mut total = Tally::empty(true);
                            let mut k: usize = 0;
                            while k < sources.len()
                                invariant
                                    i + 1 < n,
                                    n == parse.contexts@.len(),
                                    k <= sources@.len(),
                                    total.found,
                                decreases sources@.len() - k,
                            {
                                let branch = self.run_chain(parse, i + 1, &sources[k], forks);
                                match add_branch(total, branch, forks) {
                                    Ok(t) => {
                                        total = t;
                                    },
                                    Err(e) => {
                                        return Err(e);
                                    },
                                }
                                k = k + 1;
                            }
                            Ok(total)
                        },
                    }
                },
            }
        } else {
            match self.command_call(parse, i) {
                None => Ok(Tally::empty(false)),
                Some((c, arguments)) => {
                    match source.run_command(c, &arguments) {
                        Ok(v) => Ok(Tally::ran(v)),
                        Err(e) => {
                            if forked {
                                Ok(Tally::failed(e))
                            } else {
                                Err(e)
                            }
                        },
                    }
                },
            }
        }
    }

    /// The error of the library's own for a parse, as `library_error` says.
    pub fn check_runnable(&self, parse: &ParseResults) -> (r: Option<CommandSyntaxException>)
        ensures
            r == library_error(self.view(), parse.view(), parse.input@.len() as int),
    {
        let ghost cs = contexts_view(parse.contexts@);
        if parse.cursor < parse.input.len() {
            if parse.errors.len() == 1 {
                return Some(parse.errors[0].1);
            } else if parse.contexts.len() == 0 || !parse.contexts[0].has_nodes() {
                proof {
                    if parse.contexts@.len() > 0 {
                        assert(cs[0] == parse.contexts@[0]@);
                    }
                }
                return Some(CommandSyntaxException::new(SyntaxErrorKind::DispatcherUnknownCommand, parse.cursor));
            } else {
                assert(cs[0] == parse.contexts@[0]@);
                return Some(CommandSyntaxException::new(SyntaxErrorKind::DispatcherUnknownArgument, parse.cursor));
            }
        }
        let unknown = CommandSyntaxException::new(SyntaxErrorKind::DispatcherUnknownCommand, parse.cursor);
        let n = parse.contexts.len();
        if n == 0 {
            return Some(unknown);
        }
        let mut j: usize = 0;
        while j < n
            invariant
                n == parse.contexts@.len(),
                cs == contexts_view(parse.contexts@),
                j <= n,
                parse.cursor >= parse.input@.len(),
                unknown == syntax_error(SyntaxErrorKind::DispatcherUnknownCommand, parse.cursor as int),
                forall|m: int| 0 <= m < j ==> (#[trigger] last_node(self.view(), cs[m])) is Some,
            decreases n - j,
        {
            let ctx = &parse.contexts[j];
            assert(cs[j as int] == ctx@);
            if ctx.nodes.len() == 0 || ctx.nodes[ctx.nodes.len() - 1].node >= self.nodes.len() {
                assert(last_node(self.view(), cs[j as int]) is None);
                assert(!runnable_from(self.view(), cs, 0));
                assert(parse.view().contexts == cs);
                return Some(unknown);
            }
            j = j + 1;
        }
        assert(cs.last() == parse.contexts@[n - 1]@);
        match self.command_call(parse, n - 1) {
            None => Some(unknown),
            Some(_) => None,
        }
    }

    /// Runs what a parse matched for `source`. Input left over, or a chain that
    /// does not end at a node with a command, is reported as a syntax error.
    /// After a fork, a failing branch does not stop the others, and the result is
    /// the number of commands that succeeded (`execute_reporting` also hands back
    /// the failures); otherwise it is the sum of their results.
    pub fn execute_parsed<S: CommandSource>(&self, parse: &ParseResults, source: &S) -> (r: Result<i32, CommandError>)
        ensures
            library_error(self.view(), parse.view(), parse.input@.len() as int) matches Some(x) ==> (r matches Err(
                CommandError::Syntax(y),
            ) && y == x),
            library_error(self.view(), parse.view(), parse.input@.len() as int) is None ==> exists|
                t: Result<Tally, CommandError>,
                unknown: CommandError,
            |
                (t matches Ok(u) ==> u.found) && r == finish_value(
                    t,
                    chain_forked(self.view(), contexts_view(parse.contexts@)),
                    unknown,
                ),
    {
        self.execute_reporting(parse, source).0
    }

    /// Runs what a parse matched for `source`, and also returns the failures of
    /// branches after a fork, which the result alone does not report. The library
    /// adds no error of its own to a chain that can be run: the result is then
    /// what the commands and modifiers gave, put together by `finish`.
    pub fn execute_reporting<S: CommandSource>(&self, parse: &ParseResults, source: &S) -> (r: (
        Result<i32, CommandError>,
        Vec<CommandError>,
    ))
        ensures
            library_error(self.view(), parse.view(), parse.input@.len() as int) matches Some(x) ==> (r.0 matches Err(
                CommandError::Syntax(y),
            ) && y == x && r.1@.len() == 0),
            library_error(self.view(), parse.view(), parse.input@.len() as int) is None ==> exists|
                t: Result<Tally, CommandError>,
                unknown: CommandError,
            |
                (t matches Ok(u) ==> u.found) && r.0 == finish_value(
                    t,
                    chain_forked(self.view(), contexts_view(parse.contexts@)),
                    unknown,
                ),
            r.0 is Ok ==> library_error(self.view(), parse.view(), parse.input@.len() as int) is None,
    {
        match self.check_runnable(parse) {
            Some(x) => (Err(CommandError::Syntax(x)), Vec::new()),
            None => {
                let forked = self.chain_forks(parse);
                let t = self.run_chain(parse, 0, source, false);
                let unknown = CommandError::Syntax(
                    CommandSyntaxException::new(SyntaxErrorKind::DispatcherUnknownCommand, parse.cursor),
                );
                proof {
                    assert(parse.view().contexts == contexts_view(parse.contexts@));
                }
                finish(t, forked, unknown)
            },
        }
    }

    /// Whether a node that redirects with a fork lies on the chain of a parse.
    fn chain_forks(&self, parse: &ParseResults) -> (r: bool)
        ensures
            r == chain_forked(self.view(), contexts_view(parse.contexts@)),
    {
        let ghost cs = contexts_view(parse.contexts@);
        let n = parse.contexts.len();
        let mut i: usize = 0;
        while i < n && i + 1 < n
            invariant
                n == parse.contexts@.len(),
                cs == contexts_view(parse.contexts@),
                i <= n,
                forall|j: int| 0 <= j < i && j < cs.len() - 1 ==> !#[trigger] ends_in_fork(self.view(), cs[j]),
            decreases n - i,
        {
            let ctx = &parse.contexts[i];
            assert(cs[i as int] == ctx@);
            if ctx.has_nodes() {
                let last = ctx.nodes[ctx.nodes.len() - 1].node;
                if last < self.nodes.len() {
                    assert(self.view()[last as int].forks == self.nodes@[last as int].forks);
                    if self.nodes[last].forks {
                        assert(ends_in_fork(self.view(), cs[i as int]));
                        return true;
                    }
                }
            }
            i = i + 1;
        }
        false
    }

    /// Parses `input` for `source` and runs what it matched.
    pub fn execute<S: CommandSource>(&self, input: &str, source: &S) -> (r: Result<i32, CommandError>)
        requires
            self.wf(),
        ensures
            exists|usable: Seq<bool>|
                usable.len() == self.view().len() && (forall|i: int|
                    0 <= i < usable.len() && self.view()[i].requirement is None ==> #[trigger] usable[i])
                    && (library_error(self.view(), #[trigger] parse_spec(self.view(), input@, usable), input@.len() as int) matches Some(x)
                    ==> (r matches Err(CommandError::Syntax(y)) && y == x)) && (r is Ok ==> library_error(
                    self.view(),
                    parse_spec(self.view(), input@, usable),
                    input@.len() as int,
                ) is None),
    {
        let usable = self.usable_nodes(source);
        let parse = self.parse_with(chars_of(input), &usable);
        let r = self.execute_parsed(&parse, source);
        assert(parse.view() == parse_spec(self.view(), input@, usable@));
        r
    }
}

} // verus!
