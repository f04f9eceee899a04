use vstd::prelude::*;
use crate::arguments::ArgumentValue;

verus! {

/// A span of the input, from `start` up to but not including `end`.
#[derive(Copy, Clone, Debug, PartialEq, Eq, Structural)]
pub struct StringRange {
    pub start: usize,
    pub end: usize,
}

/// A node that matched, with the input it matched.
#[derive(Copy, Clone, Debug, PartialEq, Eq, Structural)]
pub struct ParsedCommandNode {
    pub node: usize,
    pub range: StringRange,
}

/// The value that an argument node read, with the input it read it from.
#[derive(Copy, Clone, Debug, PartialEq, Eq, Structural)]
pub struct ParsedArgument {
    pub node: usize,
    pub range: StringRange,
    pub value: ArgumentValue,
}

/// What one stretch of a parse matched, starting at node `root`. A parse that
/// crosses a redirect starts a new context at the redirect's target.
#[derive(Debug)]
pub struct CommandContext {
    pub root: usize,
    pub start: usize,
    pub nodes: Vec<ParsedCommandNode>,
    pub arguments: Vec<ParsedArgument>,
}

pub struct ContextView {
    pub root: usize,
    pub start: usize,
    pub nodes: Seq<ParsedCommandNode>,
    pub arguments: Seq<ParsedArgument>,
}

impl View for CommandContext {
    type V = ContextView;

    open spec fn view(&self) -> ContextView {
        ContextView {
            root: self.root,
            start: self.start,
            nodes: self.nodes@,
            arguments: self.arguments@,
        }
    }
}

pub open spec fn contexts_view(v: Seq<CommandContext>) -> Seq<ContextView> {
    v.map_values(|c: CommandContext| c@)
}

pub open spec fn empty_context(root: usize, start: int) -> ContextView {
    ContextView { root, start: start as usize, nodes: Seq::empty(), arguments: Seq::empty() }
}

impl CommandContext {
    pub fn new(root: usize, start: usize) -> (r: CommandContext)
        ensures
            r@ == empty_context(root, start as int),
    {
        let r = CommandContext { root, start, nodes: Vec::new(), arguments: Vec::new() };
        assert(r@.nodes =~= Seq::<ParsedCommandNode>::empty());
        assert(r@.arguments =~= Seq::<ParsedArgument>::empty());
        r
    }

    /// Whether this context matched any node.
    pub fn has_nodes(&self) -> (r: bool)
        ensures
            r == (self@.nodes.len() > 0),
    {
        self.nodes.len() > 0
    }
}

} // verus!
