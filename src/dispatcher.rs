use vstd::prelude::*;
use crate::arguments::{ArgumentValue, parse_argument_spec};
use crate::context::{
    CommandContext, ContextView, ParsedArgument, ParsedCommandNode, StringRange, contexts_view,
    empty_context,
};
use crate::exceptions::{CommandSyntaxException, SyntaxErrorKind, syntax_error};
use crate::string_reader::{StringReader, word_end, lemma_word_end_bounds};
use crate::tree::{CommandNode, NodeKind, NodeKindView, NodeView, children_in, is_argument, nodes_view};

verus! {

/// A tree whose child and redirect indices all stay inside it, rooted at node 0.
pub open spec fn tree_wf(t: Seq<NodeView>) -> bool {
    &&& t.len() >= 1
    &&& t[0].kind is Root
    &&& children_in(t, 0, t.len() as int)
    &&& forall|i: int| 0 <= i < t.len() && (#[trigger] t[i].redirect) is Some ==> t[i].redirect->0 < t.len()
}

/// The first of the children `cs[k..]` that is a literal with text `w`.
pub open spec fn literal_child(t: Seq<NodeView>, cs: Seq<usize>, w: Seq<char>, k: int) -> Option<usize>
    decreases cs.len() - k,
{
    if k < 0 || k >= cs.len() {
        None
    } else if cs[k] < t.len() && t[cs[k] as int].kind == NodeKindView::Literal(w) {
        Some(cs[k])
    } else {
        literal_child(t, cs, w, k + 1)
    }
}

proof fn lemma_literal_child(t: Seq<NodeView>, cs: Seq<usize>, w: Seq<char>, k: int)
    ensures
        literal_child(t, cs, w, k) matches Some(c) ==> c < t.len() && t[c as int].kind
            == NodeKindView::Literal(w),
    decreases cs.len() - k,
{
    if 0 <= k < cs.len() {
        lemma_literal_child(t, cs, w, k + 1);
    }
}

/// Which children are tried: the literal that the next word names, if there is
/// one, and otherwise every argument child.
pub open spec fn is_candidate(t: Seq<NodeView>, lit: Option<usize>, c: usize) -> bool {
    match lit {
        Some(l) => c == l,
        None => is_argument(t[c as int].kind),
    }
}

/// Matching child `c` at `pos`: what it read and where it ends, or why it failed.
pub open spec fn attempt(t: Seq<NodeView>, s: Seq<char>, pos: int, c: usize) -> Result<
    (ArgumentValue, int),
    CommandSyntaxException,
> {
    match t[c as int].kind {
        NodeKindView::Literal(l) => Ok((ArgumentValue::Text, pos + l.len())),
        NodeKindView::Argument(_, ty) => match parse_argument_spec(ty, s, pos) {
            Ok((v, e)) => if e < s.len() && s[e] != ' ' {
                Err(syntax_error(SyntaxErrorKind::DispatcherExpectedArgumentSeparator, e))
            } else {
                Ok((v, e))
            },
            Err(x) => Err(x),
        },
        NodeKindView::Root => Err(syntax_error(SyntaxErrorKind::LiteralIncorrect, pos)),
    }
}

/// The outcome of trying children in order.
pub struct MatchOutcome {
    pub matched: Option<(usize, ArgumentValue, int)>,
    pub errors: Seq<(usize, CommandSyntaxException)>,
}

/// Tries the children `cs[k..]` in order: the first candidate that the source may
/// use and that matches wins; the failures before it are recorded.
pub open spec fn first_match(
    t: Seq<NodeView>,
    s: Seq<char>,
    usable: Seq<bool>,
    pos: int,
    cs: Seq<usize>,
    lit: Option<usize>,
    k: int,
) -> MatchOutcome
    decreases cs.len() - k,
{
    if k < 0 || k >= cs.len() {
        MatchOutcome { matched: None, errors: Seq::empty() }
    } else {
        let c = cs[k];
        if c >= t.len() || c >= usable.len() || !is_candidate(t, lit, c) || !usable[c as int] {
            first_match(t, s, usable, pos, cs, lit, k + 1)
        } else {
            match attempt(t, s, pos, c) {
                Ok((v, e)) => MatchOutcome { matched: Some((c, v, e)), errors: Seq::empty() },
                Err(x) => {
                    let rest = first_match(t, s, usable, pos, cs, lit, k + 1);
                    MatchOutcome { matched: rest.matched, errors: seq![(c, x)] + rest.errors }
                },
            }
        }
    }
}

proof fn lemma_first_match(
    t: Seq<NodeView>,
    s: Seq<char>,
    usable: Seq<bool>,
    pos: int,
    cs: Seq<usize>,
    lit: Option<usize>,
    k: int,
)
    ensures
        first_match(t, s, usable, pos, cs, lit, k).matched matches Some((c, v, e)) ==> c < t.len()
            && c < usable.len() && usable[c as int] && is_candidate(t, lit, c) && attempt(t, s, pos, c)
            == Ok::<(ArgumentValue, int), CommandSyntaxException>((v, e)),
    decreases cs.len() - k,
{
    if 0 <= k < cs.len() {
        lemma_first_match(t, s, usable, pos, cs, lit, k + 1);
    }
}

/// A context after node `c` matched `s[start..end]`.
pub open spec fn record(f: ContextView, c: usize, start: int, end: int, v: ArgumentValue, arg: bool) -> ContextView {
    let range = StringRange { start: start as usize, end: end as usize };
    ContextView {
        nodes: f.nodes.push(ParsedCommandNode { node: c, range }),
        arguments: if arg {
            f.arguments.push(ParsedArgument { node: c, range, value: v })
        } else {
            f.arguments
        },
        ..f
    }
}

/// What a parse produces: the chain of contexts, the position where reading
/// stopped, and why the children at that position failed.
pub struct ParseView {
    pub contexts: Seq<ContextView>,
    pub cursor: int,
    pub errors: Seq<(usize, CommandSyntaxException)>,
}

/// Parsing `s` from `pos`, standing at `node`, with the finished contexts `done`
/// and the current context `cur`. After a child matches, one separator follows;
/// parsing goes on beneath the child, or beneath the redirect's target in a new
/// context.
pub open spec fn walk(
    t: Seq<NodeView>,
    s: Seq<char>,
    usable: Seq<bool>,
    node: usize,
    pos: int,
    done: Seq<ContextView>,
    cur: ContextView,
) -> ParseView
    decreases s.len() - pos,
{
    if pos < 0 || pos > s.len() || node >= t.len() {
        ParseView { contexts: done.push(cur), cursor: pos, errors: Seq::empty() }
    } else {
        let cs = t[node as int].children;
        let lit = literal_child(t, cs, s.subrange(pos, word_end(s, pos)), 0);
        let m = first_match(t, s, usable, pos, cs, lit, 0);
        match m.matched {
            None => ParseView { contexts: done.push(cur), cursor: pos, errors: m.errors },
            Some((c, v, e)) => {
                let cur2 = record(cur, c, pos, e, v, is_argument(t[c as int].kind));
                if e < pos {
                    ParseView { contexts: done.push(cur2), cursor: e, errors: Seq::empty() }
                } else {
                    match t[c as int].redirect {
                        Some(r) => if e + 1 <= s.len() {
                            walk(t, s, usable, r, e + 1, done.push(cur2), empty_context(r, e + 1))
                        } else {
                            ParseView { contexts: done.push(cur2), cursor: e, errors: Seq::empty() }
                        },
                        None => if e + 2 <= s.len() {
                            walk(t, s, usable, c, e + 1, done, cur2)
                        } else {
                            ParseView { contexts: done.push(cur2), cursor: e, errors: Seq::empty() }
                        },
                    }
                }
            },
        }
    }
}

/// Parsing all of `s` from the root, where `usable[i]` says whether the source
/// meets node `i`'s requirement.
pub open spec fn parse_spec(t: Seq<NodeView>, s: Seq<char>, usable: Seq<bool>) -> ParseView {
    walk(t, s, usable, 0, 0, Seq::empty(), empty_context(0, 0))
}

/// The result of parsing a line against a dispatcher's tree.
#[derive(Debug)]
pub struct ParseResults {
    pub input: Vec<char>,
    pub contexts: Vec<CommandContext>,
    pub cursor: usize,
    pub errors: Vec<(usize, CommandSyntaxException)>,
}

impl ParseResults {
    pub open spec fn view(&self) -> ParseView {
        ParseView { contexts: contexts_view(self.contexts@), cursor: self.cursor as int, errors: self.errors@ }
    }
}

/// Whether `a` holds the characters `s[from..to]`.
fn range_equals(a: &Vec<char>, s: &Vec<char>, from: usize, to: usize) -> (r: bool)
    requires
        from <= to <= s@.len(),
    ensures
        r == (a@ == s@.subrange(from as int, to as int)),
{
    if a.len() != to - from {
        return false;
    }
    let mut i: usize = 0;
    while i < a.len()
        invariant
            a@.len() == to - from,
            from <= to <= s@.len(),
            i <= a@.len(),
            forall|j: int| 0 <= j < i ==> a@[j] == s@[from + j],
        decreases a@.len() - i,
    {
        if a[i] != s[from + i] {
            assert(s@.subrange(from as int, to as int)[i as int] == s@[from + i]);
            return false;
        }
        i = i + 1;
    }
    assert(a@ =~= s@.subrange(from as int, to as int));
    true
}

/// Owns a command tree and parses lines against it.
pub struct CommandDispatcher {
    pub nodes: Vec<CommandNode>,
}

impl CommandDispatcher {
    pub open spec fn view(&self) -> Seq<NodeView> {
        nodes_view(self.nodes@)
    }

    pub open spec fn wf(&self) -> bool {
        tree_wf(self.view())
    }

    /// The first literal among `cs[k..]` whose text is `s[from..to]`.
    fn find_literal(&self, cs: &Vec<usize>, s: &Vec<char>, from: usize, to: usize) -> (r: Option<usize>)
        requires
            from <= to <= s@.len(),
        ensures
            r == literal_child(self.view(), cs@, s@.subrange(from as int, to as int), 0),
    {
        let ghost w = s@.subrange(from as int, to as int);
        let mut k: usize = 0;
        while k < cs.len()
            invariant
                k <= cs@.len(),
                from <= to <= s@.len(),
                w == s@.subrange(from as int, to as int),
                literal_child(self.view(), cs@, w, 0) == literal_child(self.view(), cs@, w, k as int),
            decreases cs@.len() - k,
        {
            let c = cs[k];
            if c < self.nodes.len() {
                match &self.nodes[c].kind {
                    NodeKind::Literal(l) => {
                        if range_equals(l, s, from, to) {
                            return Some(c);
                        }
                    },
                    _ => {},
                }
            }
            k = k + 1;
        }
        None
    }

    /// Tries child `c` at the reader's cursor; the cursor is left anywhere.
    fn attempt_child(&self, reader: &mut StringReader, c: usize) -> (r: Result<(ArgumentValue, usize), CommandSyntaxException>)
        requires
            old(reader).wf(),
            c < self.nodes@.len(),
            self.view()[c as int].kind is Literal ==> old(reader).cursor + self.view()[c as int].kind->Literal_0.len() <= old(reader).string@.len(),
        ensures
            final(reader).wf(),
            final(reader).string == old(reader).string,
            match attempt(self.view(), old(reader).string@, old(reader).cursor as int, c) {
                Ok((v, e)) => r matches Ok((v2, e2)) && v2 == v && e2 == e && old(reader).cursor <= e <= old(reader).string@.len(),
                Err(x) => r == Err::<(ArgumentValue, usize), CommandSyntaxException>(x),
            },
    {
        match &self.nodes[c].kind {
            NodeKind::Literal(l) => {
                let n = reader.string.len();
                assert(self.view()[c as int].kind == self.nodes@[c as int].kind@);
                Ok((ArgumentValue::Text, reader.cursor + l.len()))
            },
            NodeKind::Argument(_, ty) => {
                proof {
                    crate::arguments::lemma_parse_end_bounds(*ty, reader.string@, reader.cursor as int);
                }
                match ty.parse(reader) {
                    Ok(v) => {
                        let e = reader.cursor;
                        if e < reader.string.len() && reader.string[e] != ' ' {
                            Err(CommandSyntaxException::new(SyntaxErrorKind::DispatcherExpectedArgumentSeparator, e))
                        } else {
                            Ok((v, e))
                        }
                    },
                    Err(x) => Err(x),
                }
            },
            NodeKind::Root => Err(CommandSyntaxException::new(SyntaxErrorKind::LiteralIncorrect, reader.cursor)),
        }
    }

    /// Tries the children `cs` in order at `pos`, as `first_match` says.
    fn match_children(
        &self,
        reader: &mut StringReader,
        pos: usize,
        usable: &Vec<bool>,
        cs: &Vec<usize>,
        lit: Option<usize>,
    ) -> (r: (Option<(usize, ArgumentValue, usize)>, Vec<(usize, CommandSyntaxException)>))
        requires
            old(reader).wf(),
            pos <= old(reader).string@.len(),
            lit matches Some(l) ==> l < self.view().len() && self.view()[l as int].kind is Literal && pos
                + self.view()[l as int].kind->Literal_0.len() <= old(reader).string@.len(),
        ensures
            final(reader).wf(),
            final(reader).string == old(reader).string,
            ({
                let m = first_match(self.view(), old(reader).string@, usable@, pos as int, cs@, lit, 0);
                &&& r.1@ == m.errors
                &&& match m.matched {
                    None => r.0 is None,
                    Some((c, v, e)) => r.0 == Some((c, v, e as usize)) && pos <= e <= old(reader).string@.len(),
                }
            }),
    {
        let ghost s = reader.string@;
        let ghost t = self.view();
        let mut errs: Vec<(usize, CommandSyntaxException)> = Vec::new();
        let mut k: usize = 0;
        while k < cs.len()
            invariant
                reader.wf(),
                reader.string@ == s,
                s == old(reader).string@,
                reader.string == old(reader).string,
                t == self.view(),
                pos <= s.len(),
                k <= cs@.len(),
                lit matches Some(l) ==> l < t.len() && t[l as int].kind is Literal && pos
                    + t[l as int].kind->Literal_0.len() <= s.len(),
                first_match(t, s, usable@, pos as int, cs@, lit, 0) == (MatchOutcome {
                    matched: first_match(t, s, usable@, pos as int, cs@, lit, k as int).matched,
                    errors: errs@ + first_match(t, s, usable@, pos as int, cs@, lit, k as int).errors,
                }),
            decreases cs@.len() - k,
        {
            let c = cs[k];
            let candidate = if c < self.nodes.len() && c < usable.len() {
                assert(t[c as int].kind == self.nodes@[c as int].kind@);
                match lit {
                    Some(l) => c == l,
                    None => match &self.nodes[c].kind {
                        NodeKind::Argument(_, _) => true,
                        _ => false,
                    },
                }
            } else {
                false
            };
            if candidate && usable[c] {
                reader.cursor = pos;
                match self.attempt_child(reader, c) {
                    Ok((v, e)) => {
                        assert(errs@ + Seq::<(usize, CommandSyntaxException)>::empty() =~= errs@);
                        return (Some((c, v, e)), errs);
                    },
                    Err(x) => {
                        let ghost before = errs@;
                        errs.push((c, x));
                        let ghost rest = first_match(t, s, usable@, pos as int, cs@, lit, k + 1);
                        assert(before + (seq![(c, x)] + rest.errors) =~= errs@ + rest.errors);
                    },
                }
            }
            k = k + 1;
        }
        assert(errs@ + Seq::<(usize, CommandSyntaxException)>::empty() =~= errs@);
        (None, errs)
    }

    /// Parses `input` from the root, where `usable[i]` says whether the source
    /// meets node `i`'s requirement.
    pub fn parse_with(&self, input: Vec<char>, usable: &Vec<bool>) -> (r: ParseResults)
        requires
            self.wf(),
        ensures
            r.input@ == input@,
            r.view() == parse_spec(self.view(), input@, usable@),
    {
        let ghost t = self.view();
        let ghost s = input@;
        let mut reader = StringReader { string: input, cursor: 0 };
        let mut done: Vec<CommandContext> = Vec::new();
        let mut cur = CommandContext::new(0, 0);
        let mut node: usize = 0;
        let mut pos: usize = 0;
        assert(contexts_view(done@) =~= Seq::<ContextView>::empty());
        loop
            invariant
                t == self.view(),
                tree_wf(t),
                s == input@,
                reader.string@ == s,
                reader.wf(),
                node < t.len(),
                pos <= s.len(),
                parse_spec(t, s, usable@) == walk(t, s, usable@, node, pos as int, contexts_view(done@), cur@),
            decreases s.len() - pos,
        {
            reader.cursor = pos;
            let we = reader.scan_word();
            proof {
                lemma_word_end_bounds(s, pos as int);
            }
            assert(t[node as int].children == self.nodes@[node as int].children@);
            let lit = self.find_literal(&self.nodes[node].children, &reader.string, pos, we);
            proof {
                lemma_literal_child(t, t[node as int].children, s.subrange(pos as int, we as int), 0);
            }
            let (m, errs) = self.match_children(&mut reader, pos, usable, &self.nodes[node].children, lit);
            proof {
                lemma_first_match(t, s, usable@, pos as int, t[node as int].children, lit, 0);
            }
            match m {
                None => {
                    let ghost dv = contexts_view(done@);
                    done.push(cur);
                    assert(contexts_view(done@) =~= dv.push(cur@));
                    return ParseResults { input: reader.string, contexts: done, cursor: pos, errors: errs };
                },
                Some((c, v, e)) => {
                    let ghost old_cur = cur@;
                    let range = StringRange { start: pos, end: e };
                    cur.nodes.push(ParsedCommandNode { node: c, range });
                    assert(t[c as int].kind == self.nodes@[c as int].kind@);
                    let arg = match &self.nodes[c].kind {
                        NodeKind::Argument(_, _) => true,
                        _ => false,
                    };
                    if arg {
                        cur.arguments.push(ParsedArgument { node: c, range, value: v });
                    }
                    assert(cur@ =~= record(old_cur, c, pos as int, e as int, v, arg));
                    assert(t[c as int].redirect == self.nodes@[c as int].redirect);
                    let n = reader.string.len();
                    match self.nodes[c].redirect {
                        Some(r) => {
                            let ghost dv = contexts_view(done@);
                            done.push(cur);
                            assert(contexts_view(done@) =~= dv.push(cur@));
                            if e < n {
                                cur = CommandContext::new(r, e + 1);
                                node = r;
                                pos = e + 1;
                            } else {
                                let empty: Vec<(usize, CommandSyntaxException)> = Vec::new();
                                assert(empty@ =~= Seq::<(usize, CommandSyntaxException)>::empty());
                                return ParseResults { input: reader.string, contexts: done, cursor: e, errors: empty };
                            }
                        },
                        None => {
                            if n - e >= 2 {
                                node = c;
                                pos = e + 1;
                            } else {
                                let ghost dv = contexts_view(done@);
                                done.push(cur);
                                assert(contexts_view(done@) =~= dv.push(cur@));
                                let empty: Vec<(usize, CommandSyntaxException)> = Vec::new();
                                assert(empty@ =~= Seq::<(usize, CommandSyntaxException)>::empty());
                                return ParseResults { input: reader.string, contexts: done, cursor: e, errors: empty };
                            }
                        },
                    }
                },
            }
        }
    }
}

} // verus!
