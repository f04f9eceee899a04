use vstd::prelude::*;
use crate::arguments::ArgumentValue;
use crate::context::{ContextView, ParsedCommandNode, StringRange, empty_context};
use crate::dispatcher::{
    CommandDispatcher, MatchOutcome, ParseResults, ParseView, first_match, literal_child, parse_spec, record, walk,
};
use crate::execution::{last_node, leftover_error, library_error, terminal_command};
use crate::registration::tree_ok;
use crate::string_reader::word_end;
use crate::tree::{NodeView, node_key, siblings_unique};

verus! {

/// Parsing keeps no hidden state: two parses of the same input against the same
/// tree, for sources that may use the same nodes, give the same results.
pub proof fn lemma_parse_deterministic(
    d: CommandDispatcher,
    input: Seq<char>,
    usable: Seq<bool>,
    r1: ParseResults,
    r2: ParseResults,
)
    requires
        r1.view() == parse_spec(d.view(), input, usable),
        r2.view() == parse_spec(d.view(), input, usable),
    ensures
        r1.view() == r2.view(),
{
}

/// The text of literal node `c`.
pub open spec fn literal_text(t: Seq<NodeView>, c: usize) -> Seq<char> {
    t[c as int].kind->Literal_0
}

/// The words of the literal nodes `p`, separated by single spaces.
pub open spec fn path_text(t: Seq<NodeView>, p: Seq<usize>) -> Seq<char>
    decreases p.len(),
{
    if p.len() == 0 {
        Seq::empty()
    } else if p.len() == 1 {
        literal_text(t, p[0])
    } else {
        literal_text(t, p[0]) + seq![' '] + path_text(t, p.drop_first())
    }
}

/// The nodes `p` with the ranges they match in their path text, which starts at
/// `pos`.
pub open spec fn path_nodes(t: Seq<NodeView>, p: Seq<usize>, pos: int) -> Seq<ParsedCommandNode>
    decreases p.len(),
{
    if p.len() == 0 {
        Seq::empty()
    } else {
        let e = pos + literal_text(t, p[0]).len();
        seq![ParsedCommandNode { node: p[0], range: StringRange { start: pos as usize, end: e as usize } }]
            + path_nodes(t, p.drop_first(), e + 1)
    }
}

proof fn lemma_path_nodes_last(t: Seq<NodeView>, p: Seq<usize>, pos: int)
    requires
        p.len() >= 1,
    ensures
        path_nodes(t, p, pos).len() == p.len(),
        path_nodes(t, p, pos).last().node == p.last(),
    decreases p.len(),
{
    let e = pos + literal_text(t, p[0]).len();
    if p.len() > 1 {
        lemma_path_nodes_last(t, p.drop_first(), e + 1);
    } else {
        assert(path_nodes(t, p.drop_first(), e + 1) =~= Seq::<ParsedCommandNode>::empty());
    }
}

/// A chain of usable literal nodes, each a child of the one before and the first
/// a child of `node`, with non-empty words free of spaces and no redirects.
pub open spec fn literal_path(t: Seq<NodeView>, usable: Seq<bool>, node: usize, p: Seq<usize>) -> bool {
    &&& p.len() >= 1
    &&& forall|k: int|
        0 <= k < p.len() ==> {
            &&& #[trigger] p[k] < t.len()
            &&& p[k] < usable.len()
            &&& usable[p[k] as int]
            &&& t[p[k] as int].kind is Literal
            &&& literal_text(t, p[k]).len() > 0
            &&& (forall|j: int| 0 <= j < literal_text(t, p[k]).len() ==> literal_text(t, p[k])[j] != ' ')
            &&& t[p[k] as int].redirect is None
        }
    &&& t[node as int].children.contains(p[0])
    &&& forall|k: int| 0 <= k < p.len() - 1 ==> t[p[k] as int].children.contains(#[trigger] p[k + 1])
}

proof fn lemma_word_end_run(s: Seq<char>, i: int, e: int)
    requires
        0 <= i <= e <= s.len(),
        forall|j: int| i <= j < e ==> s[j] != ' ',
        e == s.len() || s[e] == ' ',
    ensures
        word_end(s, i) == e,
    decreases e - i,
{
    if i < e {
        lemma_word_end_run(s, i + 1, e);
    }
}

/// In a tree without siblings that share a key, a child whose key is `w` is the
/// one child with that key.
proof fn lemma_unique_child(t: Seq<NodeView>, node: usize, kc: int, j: int)
    requires
        tree_ok(t),
        node < t.len(),
        0 <= kc < t[node as int].children.len(),
        0 <= j < t[node as int].children.len(),
        j != kc,
    ensures
        node_key(t[t[node as int].children[j] as int].kind) != node_key(
            t[t[node as int].children[kc] as int].kind,
        ),
{
    assert(siblings_unique(t, node as int));
}

proof fn lemma_literal_child_found(t: Seq<NodeView>, node: usize, c: usize, kc: int, k: int)
    requires
        tree_ok(t),
        node < t.len(),
        c < t.len(),
        0 <= k <= kc < t[node as int].children.len(),
        t[node as int].children[kc] == c,
        t[c as int].kind is Literal,
    ensures
        literal_child(t, t[node as int].children, literal_text(t, c), k) == Some(c),
    decreases kc - k,
{
    let cs = t[node as int].children;
    if k < kc {
        lemma_unique_child(t, node, kc, k);
        assert(cs[k] < t.len());
        lemma_literal_child_found(t, node, c, kc, k + 1);
    }
}

proof fn lemma_first_match_found(
    t: Seq<NodeView>,
    s: Seq<char>,
    usable: Seq<bool>,
    pos: int,
    node: usize,
    c: usize,
    kc: int,
    k: int,
)
    requires
        tree_ok(t),
        node < t.len(),
        c < t.len(),
        c < usable.len(),
        usable[c as int],
        0 <= k <= kc < t[node as int].children.len(),
        t[node as int].children[kc] == c,
        t[c as int].kind is Literal,
    ensures
        first_match(t, s, usable, pos, t[node as int].children, Some(c), k) == (MatchOutcome {
            matched: Some((c, ArgumentValue::Text, pos + literal_text(t, c).len())),
            errors: Seq::empty(),
        }),
    decreases kc - k,
{
    let cs = t[node as int].children;
    if k < kc {
        lemma_unique_child(t, node, kc, k);
        assert(cs[k] != c);
        lemma_first_match_found(t, s, usable, pos, node, c, kc, k + 1);
    }
}

proof fn lemma_walk_path(
    t: Seq<NodeView>,
    s: Seq<char>,
    usable: Seq<bool>,
    node: usize,
    pos: int,
    done: Seq<ContextView>,
    cur: ContextView,
    p: Seq<usize>,
)
    requires
        tree_ok(t),
        node < t.len(),
        0 <= pos <= s.len(),
        literal_path(t, usable, node, p),
        s.subrange(pos, s.len() as int) == path_text(t, p),
    ensures
        walk(t, s, usable, node, pos, done, cur) == (ParseView {
            contexts: done.push(ContextView { nodes: cur.nodes + path_nodes(t, p, pos), ..cur }),
            cursor: s.len() as int,
            errors: Seq::empty(),
        }),
    decreases p.len(),
{
    let c = p[0];
    assert(p[0] < t.len());
    let l = literal_text(t, c);
    let e = pos + l.len();
    let rest = s.subrange(pos, s.len() as int);
    if p.len() == 1 {
        assert(rest == l);
    } else {
        assert(rest == l + seq![' '] + path_text(t, p.drop_first()));
    }
    assert(e <= s.len());
    assert forall|j: int| pos <= j < e implies s[j] != ' ' by {
        assert(rest[j - pos] == l[j - pos]);
    }
    if p.len() > 1 {
        assert(rest[l.len() as int] == ' ');
    }
    lemma_word_end_run(s, pos, e);
    assert(s.subrange(pos, word_end(s, pos)) =~= l);
    let cs = t[node as int].children;
    let kc = choose|kc: int| 0 <= kc < cs.len() && cs[kc] == c;
    lemma_literal_child_found(t, node, c, kc, 0);
    lemma_first_match_found(t, s, usable, pos, node, c, kc, 0);
    let cur2 = record(cur, c, pos, e, ArgumentValue::Text, false);
    let x = ParsedCommandNode { node: c, range: StringRange { start: pos as usize, end: e as usize } };
    if p.len() == 1 {
        assert(path_nodes(t, p.drop_first(), e + 1) =~= Seq::<ParsedCommandNode>::empty());
        assert(cur.nodes + path_nodes(t, p, pos) =~= cur.nodes.push(x));
    } else {
        let q = p.drop_first();
        assert(path_text(t, q).len() > 0) by {
            assert(q[0] == p[1]);
            if q.len() == 1 {
            } else {
                assert(path_text(t, q) == literal_text(t, q[0]) + seq![' '] + path_text(t, q.drop_first()));
            }
        }
        assert(literal_path(t, usable, c, q)) by {
            assert(q[0] == p[1]);
            assert(t[p[0] as int].children.contains(p[1]));
            assert forall|k: int| 0 <= k < q.len() - 1 implies t[q[k] as int].children.contains(#[trigger] q[k + 1]) by {
                assert(q[k] == p[k + 1]);
                assert(q[k + 1] == p[k + 2]);
            }
            assert forall|k: int| 0 <= k < q.len() implies #[trigger] q[k] < t.len() by {
                assert(q[k] == p[k + 1]);
            }
        }
        assert(s.subrange(e + 1, s.len() as int) =~= path_text(t, q)) by {
            assert(rest.subrange(l.len() as int + 1, rest.len() as int) =~= path_text(t, q));
        }
        lemma_walk_path(t, s, usable, c, e + 1, done, cur2, q);
        assert(cur.nodes + path_nodes(t, p, pos) =~= cur2.nodes + path_nodes(t, q, e + 1));
    }
}

/// Parsing a line that spells out a chain of literals from the root, each usable
/// by the source and without redirects, matches exactly that chain in one
/// context and consumes the whole line, with no error left to report; executing
/// it then reaches the command of the chain's last node.
pub proof fn lemma_literal_path_parses(t: Seq<NodeView>, usable: Seq<bool>, p: Seq<usize>)
    requires
        tree_ok(t),
        literal_path(t, usable, 0, p),
    ensures
        parse_spec(t, path_text(t, p), usable) == (ParseView {
            contexts: seq![ContextView { nodes: path_nodes(t, p, 0), ..empty_context(0, 0) }],
            cursor: path_text(t, p).len() as int,
            errors: Seq::empty(),
        }),
        leftover_error(parse_spec(t, path_text(t, p), usable), path_text(t, p).len() as int) is None,
        terminal_command(t, parse_spec(t, path_text(t, p), usable).contexts[0]) == t[p.last() as int].command,
        t[p.last() as int].command is Some ==> library_error(
            t,
            parse_spec(t, path_text(t, p), usable),
            path_text(t, p).len() as int,
        ) is None,
{
    let s = path_text(t, p);
    lemma_path_nodes_last(t, p, 0);
    assert(p.last() < t.len()) by {
        assert(p[p.len() - 1] < t.len());
    }
    assert(s.subrange(0, s.len() as int) =~= s);
    lemma_walk_path(t, s, usable, 0, 0, Seq::empty(), empty_context(0, 0), p);
    assert(empty_context(0, 0).nodes + path_nodes(t, p, 0) =~= path_nodes(t, p, 0));
    assert(Seq::<ContextView>::empty().push(ContextView { nodes: path_nodes(t, p, 0), ..empty_context(0, 0) })
        =~= seq![ContextView { nodes: path_nodes(t, p, 0), ..empty_context(0, 0) }]);
    let cs = parse_spec(t, s, usable).contexts;
    assert(cs.len() == 1);
    assert(last_node(t, cs[0]) is Some);
    assert(forall|j: int| 0 <= j < cs.len() ==> (#[trigger] last_node(t, cs[j])) is Some);
}

/// Parsing a literal that redirects, followed by a chain of literals beneath the
/// redirect's target, matches the redirecting literal in the first context and
/// the chain in a second context rooted at the target, and consumes the whole
/// line: the target's subtree serves the alias without being copied. Where the
/// chain's last node has a command, executing reports no error of its own.
pub proof fn lemma_redirect_parses(t: Seq<NodeView>, usable: Seq<bool>, a: usize, q: Seq<usize>)
    requires
        tree_ok(t),
        a < t.len(),
        a < usable.len(),
        usable[a as int],
        t[0].children.contains(a),
        t[a as int].kind is Literal,
        literal_text(t, a).len() > 0,
        forall|j: int| 0 <= j < literal_text(t, a).len() ==> literal_text(t, a)[j] != ' ',
        t[a as int].redirect is Some,
        literal_path(t, usable, t[a as int].redirect->0, q),
    ensures
        ({
            let s = literal_text(t, a) + seq![' '] + path_text(t, q);
            let r = t[a as int].redirect->0;
            let e = literal_text(t, a).len() as int;
            parse_spec(t, s, usable) == (ParseView {
                contexts: seq![
                    ContextView {
                        nodes: seq![ParsedCommandNode { node: a, range: StringRange { start: 0, end: e as usize } }],
                        ..empty_context(0, 0)
                    },
                    ContextView { nodes: path_nodes(t, q, e + 1), ..empty_context(r, e + 1) },
                ],
                cursor: s.len() as int,
                errors: Seq::empty(),
            }) && (t[q.last() as int].command is Some ==> library_error(t, parse_spec(t, s, usable), s.len() as int)
                is None)
        }),
{
    let l = literal_text(t, a);
    let s = l + seq![' '] + path_text(t, q);
    let r = t[a as int].redirect->0;
    let e = l.len() as int;
    assert forall|j: int| 0 <= j < e implies s[j] != ' ' by {
        assert(s[j] == l[j]);
    }
    assert(s[e] == ' ');
    lemma_word_end_run(s, 0, e);
    assert(s.subrange(0, word_end(s, 0)) =~= l);
    let cs = t[0].children;
    let kc = choose|kc: int| 0 <= kc < cs.len() && cs[kc] == a;
    lemma_literal_child_found(t, 0, a, kc, 0);
    lemma_first_match_found(t, s, usable, 0, 0, a, kc, 0);
    assert(r < t.len());
    let q0 = path_text(t, q);
    assert(q0.len() > 0) by {
        assert(q[0] < t.len());
        if q.len() == 1 {
        } else {
            assert(path_text(t, q) == literal_text(t, q[0]) + seq![' '] + path_text(t, q.drop_first()));
        }
    }
    assert(s.subrange(e + 1, s.len() as int) =~= q0);
    let cur2 = record(empty_context(0, 0), a, 0, e, ArgumentValue::Text, false);
    lemma_walk_path(t, s, usable, r, e + 1, Seq::empty().push(cur2), empty_context(r, e + 1), q);
    assert(empty_context(r, e + 1).nodes + path_nodes(t, q, e + 1) =~= path_nodes(t, q, e + 1));
    assert(cur2.nodes =~= seq![ParsedCommandNode { node: a, range: StringRange { start: 0, end: e as usize } }]);
    assert(Seq::<ContextView>::empty().push(cur2).push(
        ContextView { nodes: path_nodes(t, q, e + 1), ..empty_context(r, e + 1) },
    ) =~= seq![
        ContextView {
            nodes: seq![ParsedCommandNode { node: a, range: StringRange { start: 0, end: e as usize } }],
            ..empty_context(0, 0)
        },
        ContextView { nodes: path_nodes(t, q, e + 1), ..empty_context(r, e + 1) },
    ]);
    lemma_path_nodes_last(t, q, e + 1);
    assert(q.last() < t.len()) by {
        assert(q[q.len() - 1] < t.len());
    }
    let cs = parse_spec(t, s, usable).contexts;
    assert(last_node(t, cs[0]) is Some);
    assert(last_node(t, cs[1]) is Some);
    assert(forall|j: int| 0 <= j < cs.len() ==> (#[trigger] last_node(t, cs[j])) is Some);
}

} // verus!
