use vstd::prelude::*;
use crate::arguments::ArgumentType;
use crate::string_reader::copy_range;
use crate::text::chars_of;

verus! {

/// What a node matches.
#[derive(Debug)]
pub enum NodeKind {
    /// The root of a dispatcher's tree; it matches nothing itself.
    Root,
    /// A fixed word.
    Literal(Vec<char>),
    /// A named value read by an argument type.
    Argument(Vec<char>, ArgumentType),
}

pub enum NodeKindView {
    Root,
    Literal(Seq<char>),
    Argument(Seq<char>, ArgumentType),
}

/// A node of a command tree. Children and redirects are indices into the arena
/// that holds the node; commands, requirements and modifiers are ids that the
/// command source interprets.
#[derive(Debug)]
pub struct CommandNode {
    pub kind: NodeKind,
    pub children: Vec<usize>,
    pub command: Option<u64>,
    pub requirement: Option<u64>,
    pub redirect: Option<usize>,
    pub forks: bool,
    pub modifier: Option<u64>,
}

pub struct NodeView {
    pub kind: NodeKindView,
    pub children: Seq<usize>,
    pub command: Option<u64>,
    pub requirement: Option<u64>,
    pub redirect: Option<usize>,
    pub forks: bool,
    pub modifier: Option<u64>,
}

impl View for NodeKind {
    type V = NodeKindView;

    open spec fn view(&self) -> NodeKindView {
        match self {
            NodeKind::Root => NodeKindView::Root,
            NodeKind::Literal(l) => NodeKindView::Literal(l@),
            NodeKind::Argument(n, t) => NodeKindView::Argument(n@, *t),
        }
    }
}

impl View for CommandNode {
    type V = NodeView;

    open spec fn view(&self) -> NodeView {
        NodeView {
            kind: self.kind@,
            children: self.children@,
            command: self.command,
            requirement: self.requirement,
            redirect: self.redirect,
            forks: self.forks,
            modifier: self.modifier,
        }
    }
}

/// The key of a node among its siblings: a literal's text or an argument's name.
pub open spec fn node_key(k: NodeKindView) -> Seq<char> {
    match k {
        NodeKindView::Root => Seq::empty(),
        NodeKindView::Literal(l) => l,
        NodeKindView::Argument(n, _) => n,
    }
}

pub open spec fn is_argument(k: NodeKindView) -> bool {
    k is Argument
}

/// A tree of nodes held as a sequence: every child index stays inside it.
pub open spec fn children_in(t: Seq<NodeView>, lo: int, hi: int) -> bool {
    forall|i: int, k: int|
        0 <= i < t.len() && 0 <= k < t[i].children.len() ==> lo <= #[trigger] t[i].children[k] < hi
}

/// No two children of a node share a key.
pub open spec fn siblings_unique(t: Seq<NodeView>, i: int) -> bool {
    forall|a: int, b: int|
        0 <= a < b < t[i].children.len() ==> node_key(t[t[i].children[a] as int].kind) != node_key(
            t[t[i].children[b] as int].kind,
        )
}

/// A node with `offset` added to each child index.
pub open spec fn shift_view(n: NodeView, offset: int) -> NodeView {
    NodeView { children: n.children.map_values(|c: usize| (c + offset) as usize), ..n }
}

pub open spec fn nodes_view(v: Seq<CommandNode>) -> Seq<NodeView> {
    v.map_values(|n: CommandNode| n@)
}

/// Changing a node but not its children keeps the children inside the same bounds.
proof fn lemma_children_in_update(t: Seq<NodeView>, n: NodeView, lo: int, hi: int)
    requires
        t.len() >= 1,
        children_in(t, lo, hi),
        n.children == t[0].children,
    ensures
        children_in(t.update(0, n), lo, hi),
{
    let u = t.update(0, n);
    assert forall|i: int, k: int| 0 <= i < u.len() && 0 <= k < u[i].children.len() implies lo
        <= #[trigger] u[i].children[k] < hi by {
        assert(u[i].children == t[i].children);
        assert(u[i].children[k] == t[i].children[k]);
    }
}

impl NodeKind {
    pub fn copy(&self) -> (r: NodeKind)
        ensures
            r@ == self@,
    {
        match self {
            NodeKind::Root => NodeKind::Root,
            NodeKind::Literal(l) => {
                let c = copy_range(l, 0, l.len());
                assert(c@ =~= l@);
                NodeKind::Literal(c)
            },
            NodeKind::Argument(n, t) => {
                let c = copy_range(n, 0, n.len());
                assert(c@ =~= n@);
                NodeKind::Argument(c, *t)
            },
        }
    }
}

impl CommandNode {
    /// A copy of this node with `offset` added to each child index.
    pub fn shifted(&self, offset: usize) -> (r: CommandNode)
        requires
            forall|k: int| 0 <= k < self.children@.len() ==> self.children@[k] + offset <= usize::MAX,
        ensures
            r@ == shift_view(self@, offset as int),
    {
        let mut children: Vec<usize> = Vec::new();
        let mut i: usize = 0;
        while i < self.children.len()
            invariant
                i <= self.children@.len(),
                forall|k: int| 0 <= k < self.children@.len() ==> self.children@[k] + offset <= usize::MAX,
                children@ == self.children@.subrange(0, i as int).map_values(|c: usize| (c + offset) as usize),
            decreases self.children@.len() - i,
        {
            children.push(self.children[i] + offset);
            i = i + 1;
            assert(children@ =~= self.children@.subrange(0, i as int).map_values(|c: usize| (c + offset) as usize));
        }
        assert(self.children@.subrange(0, i as int) =~= self.children@);
        let r = CommandNode {
            kind: self.kind.copy(),
            children,
            command: self.command,
            requirement: self.requirement,
            redirect: self.redirect,
            forks: self.forks,
            modifier: self.modifier,
        };
        assert(r@.children =~= shift_view(self@, offset as int).children);
        r
    }

    pub fn new(kind: NodeKind) -> (r: CommandNode)
        ensures
            r@ == (NodeView {
                kind: kind@,
                children: Seq::empty(),
                command: None,
                requirement: None,
                redirect: None,
                forks: false,
                modifier: None,
            }),
    {
        let r = CommandNode {
            kind,
            children: Vec::new(),
            command: None,
            requirement: None,
            redirect: None,
            forks: false,
            modifier: None,
        };
        assert(r@.children =~= Seq::<usize>::empty());
        r
    }
}

/// A node under construction together with the subtree beneath it. `nodes[0]` is
/// the node itself; child indices count within `nodes`. A redirect names a node
/// of the dispatcher that the subtree will be registered in.
pub struct ArgumentBuilder {
    pub nodes: Vec<CommandNode>,
}

impl ArgumentBuilder {
    pub open spec fn view(&self) -> Seq<NodeView> {
        nodes_view(self.nodes@)
    }

    pub open spec fn wf(&self) -> bool {
        &&& self.nodes@.len() >= 1
        &&& children_in(self.view(), 1, self.nodes@.len() as int)
    }

    /// The nodes after `then(child)`: this node gains the child's top as its
    /// last child, and the child's nodes follow, their indices shifted.
    pub open spec fn then_view(&self, child: ArgumentBuilder) -> Seq<NodeView> {
        Seq::new(
            (self.nodes@.len() + child.nodes@.len()) as nat,
            |i: int|
                if i == 0 {
                    NodeView { children: self.view()[0].children.push(self.nodes@.len() as usize), ..self.view()[0] }
                } else if i < self.nodes@.len() {
                    self.view()[i]
                } else {
                    shift_view(child.view()[i - self.nodes@.len()], self.nodes@.len() as int)
                },
        )
    }

    /// Adds a subtree beneath this node, whatever its key.
    pub fn attach(self, child: ArgumentBuilder) -> (r: ArgumentBuilder)
        requires
            self.wf(),
            child.wf(),
            self.nodes@.len() + child.nodes@.len() <= usize::MAX,
        ensures
            r.wf(),
            r.view() == self.then_view(child),
            r.nodes@.len() == self.nodes@.len() + child.nodes@.len(),
            r.view()[0] == (NodeView {
                children: self.view()[0].children.push(self.nodes@.len() as usize),
                ..self.view()[0]
            }),
            forall|i: int| 1 <= i < self.nodes@.len() ==> r.view()[i] == self.view()[i],
            forall|j: int|
                0 <= j < child.nodes@.len() ==> r.view()[self.nodes@.len() + j] == shift_view(
                    #[trigger] child.view()[j],
                    self.nodes@.len() as int,
                ),
    {
        let offset = self.nodes.len();
        let mut nodes: Vec<CommandNode> = Vec::new();
        let top = &self.nodes[0];
        let mut top_children: Vec<usize> = Vec::new();
        let mut k: usize = 0;
        while k < top.children.len()
            invariant
                k <= top.children@.len(),
                top_children@ == top.children@.subrange(0, k as int),
            decreases top.children@.len() - k,
        {
            top_children.push(top.children[k]);
            k = k + 1;
            assert(top_children@ =~= top.children@.subrange(0, k as int));
        }
        assert(top.children@.subrange(0, k as int) =~= top.children@);
        top_children.push(offset);
        nodes.push(
            CommandNode {
                kind: top.kind.copy(),
                children: top_children,
                command: top.command,
                requirement: top.requirement,
                redirect: top.redirect,
                forks: top.forks,
                modifier: top.modifier,
            },
        );
        let mut i: usize = 1;
        while i < self.nodes.len()
            invariant
                self.wf(),
                offset == self.nodes@.len(),
                1 <= i <= offset,
                nodes@.len() == i,
                nodes_view(nodes@)[0] == (NodeView {
                    children: self.view()[0].children.push(offset),
                    ..self.view()[0]
                }),
                forall|m: int| 1 <= m < i ==> nodes_view(nodes@)[m] == self.view()[m],
            decreases offset - i,
        {
            nodes.push(self.nodes[i].shifted(0));
            proof {
                let s = self.view()[i as int];
                assert(shift_view(s, 0).children =~= s.children);
            }
            i = i + 1;
        }
        let mut j: usize = 0;
        while j < child.nodes.len()
            invariant
                self.wf(),
                child.wf(),
                offset == self.nodes@.len(),
                offset + child.nodes@.len() <= usize::MAX,
                j <= child.nodes@.len(),
                nodes@.len() == offset + j,
                nodes_view(nodes@)[0] == (NodeView {
                    children: self.view()[0].children.push(offset),
                    ..self.view()[0]
                }),
                forall|m: int| 1 <= m < offset ==> nodes_view(nodes@)[m] == self.view()[m],
                forall|m: int|
                    0 <= m < j ==> nodes_view(nodes@)[offset + m] == shift_view(
                        #[trigger] child.view()[m],
                        offset as int,
                    ),
            decreases child.nodes@.len() - j,
        {
            proof {
                assert forall|k: int| 0 <= k < child.nodes@[j as int].children@.len() implies child.nodes@[j as int].children@[k]
                    + offset <= usize::MAX by {
                    assert(child.view()[j as int].children[k] == child.nodes@[j as int].children@[k]);
                }
            }
            nodes.push(child.nodes[j].shifted(offset));
            j = j + 1;
        }
        let r = ArgumentBuilder { nodes };
        proof {
            let t = r.view();
            let n = r.nodes@.len() as int;
            assert forall|i: int, k: int| 0 <= i < t.len() && 0 <= k < t[i].children.len() implies 1
                <= #[trigger] t[i].children[k] < n by {
                if i == 0 {
                    if k < self.view()[0].children.len() {
                        assert(t[0].children[k] == self.view()[0].children[k]);
                    }
                } else if i < offset {
                    assert(t[i] == self.view()[i]);
                } else {
                    let m = i - offset;
                    assert(t[i] == shift_view(child.view()[m], offset as int));
                    assert(t[i].children[k] == (child.view()[m].children[k] + offset) as usize);
                }
            }
        }
        r
    }

    /// Adds a subtree beneath this node. Keys are not checked here: `try_then`
    /// checks them at once, and registering checks the whole subtree.
    pub fn then(self, child: ArgumentBuilder) -> (r: ArgumentBuilder)
        requires
            self.wf(),
            child.wf(),
            self.nodes@.len() + child.nodes@.len() <= usize::MAX,
        ensures
            r.wf(),
            r.view() == self.then_view(child),
            r.nodes@.len() == self.nodes@.len() + child.nodes@.len(),
            r.view()[0] == (NodeView {
                children: self.view()[0].children.push(self.nodes@.len() as usize),
                ..self.view()[0]
            }),
            forall|i: int| 1 <= i < self.nodes@.len() ==> r.view()[i] == self.view()[i],
            forall|j: int|
                0 <= j < child.nodes@.len() ==> r.view()[self.nodes@.len() + j] == shift_view(
                    #[trigger] child.view()[j],
                    self.nodes@.len() as int,
                ),
    {
        self.attach(child)
    }

    /// Adds a subtree beneath this node, unless its top shares its key with a
    /// child that this node already has.
    pub fn try_then(self, child: ArgumentBuilder) -> (r: Result<ArgumentBuilder, ArgumentBuilder>)
        requires
            self.wf(),
            child.wf(),
            self.nodes@.len() + child.nodes@.len() <= usize::MAX,
        ensures
            (exists|k: int|
                0 <= k < self.view()[0].children.len() && node_key(
                    self.view()[#[trigger] self.view()[0].children[k] as int].kind,
                ) == node_key(child.view()[0].kind)) <==> r is Err,
            r matches Ok(b) ==> b.wf() && b.view() == self.then_view(child),
            r matches Err(b) ==> b.view() == self.view(),
    {
        let ghost t = self.view();
        let cs = &self.nodes[0].children;
        assert(cs@ == t[0].children);
        let mut k: usize = 0;
        while k < cs.len()
            invariant
                t == self.view(),
                self.wf(),
                child.wf(),
                cs@ == t[0].children,
                k <= cs@.len(),
                forall|j: int| 0 <= j < k ==> node_key(t[#[trigger] t[0].children[j] as int].kind) != node_key(
                    child.view()[0].kind,
                ),
            decreases cs@.len() - k,
        {
            let c = cs[k];
            assert(t[0].children[k as int] == c);
            assert(1 <= c < self.nodes@.len());
            assert(t[c as int].kind == self.nodes@[c as int].kind@);
            assert(child.view()[0].kind == child.nodes@[0].kind@);
            if crate::registration::same_key(&self.nodes[c].kind, &child.nodes[0].kind) {
                return Err(self);
            }
            k = k + 1;
        }
        Ok(self.attach(child))
    }

    /// Attaches a command to this node.
    pub fn executes(self, command: u64) -> (r: ArgumentBuilder)
        requires
            self.wf(),
        ensures
            r.wf(),
            r.view() == self.view().update(0, NodeView { command: Some(command), ..self.view()[0] }),
    {
        let t = &self.nodes[0];
        let (c, q, d, f, m) = (Some(command), t.requirement, t.redirect, t.forks, t.modifier);
        self.set_top(c, q, d, f, m)
    }

    /// Makes this node usable only by sources that meet a requirement.
    pub fn require(self, requirement: u64) -> (r: ArgumentBuilder)
        requires
            self.wf(),
        ensures
            r.wf(),
            r.view() == self.view().update(
                0,
                NodeView { requirement: Some(requirement), ..self.view()[0] },
            ),
    {
        let t = &self.nodes[0];
        let (c, q, d, f, m) = (t.command, Some(requirement), t.redirect, t.forks, t.modifier);
        self.set_top(c, q, d, f, m)
    }

    /// Continues parsing after this node among the children of `target`.
    pub fn redirect(self, target: usize) -> (r: ArgumentBuilder)
        requires
            self.wf(),
        ensures
            r.wf(),
            r.view() == self.view().update(
                0,
                NodeView { redirect: Some(target), forks: false, modifier: None, ..self.view()[0] },
            ),
    {
        let t = &self.nodes[0];
        let (c, q, d, f, m) = (t.command, t.requirement, Some(target), false, None);
        self.set_top(c, q, d, f, m)
    }

    /// Continues parsing after this node among the children of `target`, and runs
    /// what follows once for each source that `modifier` derives.
    pub fn fork(self, target: usize, modifier: u64) -> (r: ArgumentBuilder)
        requires
            self.wf(),
        ensures
            r.wf(),
            r.view() == self.view().update(
                0,
                NodeView {
                    redirect: Some(target),
                    forks: true,
                    modifier: Some(modifier),
                    ..self.view()[0]
                },
            ),
    {
        let t = &self.nodes[0];
        let (c, q, d, f, m) = (t.command, t.requirement, Some(target), true, Some(modifier));
        self.set_top(c, q, d, f, m)
    }

    fn set_top(
        self,
        command: Option<u64>,
        requirement: Option<u64>,
        redirect: Option<usize>,
        forks: bool,
        modifier: Option<u64>,
    ) -> (r: ArgumentBuilder)
        requires
            self.wf(),
        ensures
            r.wf(),
            r.view() == self.view().update(
                0,
                NodeView { command, requirement, redirect, forks, modifier, ..self.view()[0] },
            ),
    {
        let mut nodes = self.nodes;
        let top = nodes.swap_remove(0);
        let new_top = CommandNode {
            kind: top.kind,
            children: top.children,
            command,
            requirement,
            redirect,
            forks,
            modifier,
        };
        nodes.push(new_top);
        if nodes.len() > 1 {
            let moved = nodes.swap_remove(0);
            nodes.push(moved);
        }
        let r = ArgumentBuilder { nodes };
        proof {
            assert(nodes_view(r.nodes@) =~= self.view().update(
                0,
                NodeView { command, requirement, redirect, forks, modifier, ..self.view()[0] },
            ));
            lemma_children_in_update(
                self.view(),
                NodeView { command, requirement, redirect, forks, modifier, ..self.view()[0] },
                1,
                self.nodes@.len() as int,
            );
            assert(r.wf());
        }
        r
    }
}

/// A builder for a node that matches the fixed word `name`.
pub fn literal(name: &str) -> (r: ArgumentBuilder)
    ensures
        r.wf(),
        r.view() == seq![
            NodeView {
                kind: NodeKindView::Literal(name@),
                children: Seq::empty(),
                command: None,
                requirement: None,
                redirect: None,
                forks: false,
                modifier: None,
            },
        ],
{
    let mut nodes: Vec<CommandNode> = Vec::new();
    nodes.push(CommandNode::new(NodeKind::Literal(chars_of(name))));
    let r = ArgumentBuilder { nodes };
    assert(r.view() =~= seq![nodes@[0]@]);
    r
}

/// A builder for a node that reads a value named `name` of type `parser`.
pub fn argument(name: &str, parser: ArgumentType) -> (r: ArgumentBuilder)
    ensures
        r.wf(),
        r.view() == seq![
            NodeView {
                kind: NodeKindView::Argument(name@, parser),
                children: Seq::empty(),
                command: None,
                requirement: None,
                redirect: None,
                forks: false,
                modifier: None,
            },
        ],
{
    let mut nodes: Vec<CommandNode> = Vec::new();
    nodes.push(CommandNode::new(NodeKind::Argument(chars_of(name), parser)));
    let r = ArgumentBuilder { nodes };
    assert(r.view() =~= seq![nodes@[0]@]);
    r
}

} // verus!
