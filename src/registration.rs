use vstd::prelude::*;
use crate::dispatcher::{CommandDispatcher, tree_wf};
use crate::tree::{shift_view, ArgumentBuilder, CommandNode, NodeKind, NodeView, children_in, node_key, nodes_view, siblings_unique};

verus! {

/// Why a subtree could not be registered.
#[derive(Copy, Clone, Debug, PartialEq, Eq, Structural)]
pub enum RegisterError {
    /// Two children of one node would share a key, or an index would point
    /// outside the tree.
    InvalidTree,
}

/// A tree that is well formed and in which no two siblings share a key.
pub open spec fn tree_ok(t: Seq<NodeView>) -> bool {
    &&& tree_wf(t)
    &&& forall|i: int| 0 <= i < t.len() ==> #[trigger] siblings_unique(t, i)
}

/// The tree `t` with the subtree `b` appended and its top made a child of the root.
pub open spec fn registered(t: Seq<NodeView>, b: Seq<NodeView>) -> Seq<NodeView> {
    Seq::new(
        (t.len() + b.len()) as nat,
        |i: int|
            if i == 0 {
                NodeView { children: t[0].children.push(t.len() as usize), ..t[0] }
            } else if i < t.len() {
                t[i]
            } else {
                shift_view(b[i - t.len()], t.len() as int)
            },
    )
}

/// Whether two nodes have the same key.
pub fn same_key(x: &NodeKind, y: &NodeKind) -> (r: bool)
    ensures
        r == (node_key(x@) == node_key(y@)),
{
    let a: Option<&Vec<char>> = match x {
        NodeKind::Root => None,
        NodeKind::Literal(l) => Some(l),
        NodeKind::Argument(n, _) => Some(n),
    };
    let b: Option<&Vec<char>> = match y {
        NodeKind::Root => None,
        NodeKind::Literal(l) => Some(l),
        NodeKind::Argument(n, _) => Some(n),
    };
    match (a, b) {
        (None, None) => true,
        (Some(p), None) => {
            assert(node_key(y@) =~= Seq::<char>::empty());
            if p.len() == 0 {
                assert(p@ =~= Seq::<char>::empty());
            }
            p.len() == 0
        },
        (None, Some(q)) => {
            assert(node_key(x@) =~= Seq::<char>::empty());
            if q.len() == 0 {
                assert(q@ =~= Seq::<char>::empty());
            }
            q.len() == 0
        },
        (Some(p), Some(q)) => crate::text::chars_equal(p, q),
    }
}

/// Whether the children of node `i` have distinct keys.
fn unique_children(nodes: &Vec<CommandNode>, i: usize) -> (r: bool)
    requires
        i < nodes@.len(),
        children_in(nodes_view(nodes@), 0, nodes@.len() as int),
    ensures
        r == siblings_unique(nodes_view(nodes@), i as int),
{
    let ghost t = nodes_view(nodes@);
    let cs = &nodes[i].children;
    assert(cs@ == t[i as int].children);
    let mut a: usize = 0;
    while a < cs.len()
        invariant
            t == nodes_view(nodes@),
            cs@ == t[i as int].children,
            i < t.len(),
            children_in(t, 0, t.len() as int),
            a <= cs@.len(),
            forall|x: int, y: int|
                0 <= x < a && x < y < cs@.len() ==> node_key(t[cs@[x] as int].kind) != node_key(
                    t[cs@[y] as int].kind,
                ),
        decreases cs@.len() - a,
    {
        let mut b: usize = a + 1;
        while b < cs.len()
            invariant
                t == nodes_view(nodes@),
                cs@ == t[i as int].children,
                i < t.len(),
                children_in(t, 0, t.len() as int),
                a < cs@.len(),
                a + 1 <= b <= cs@.len(),
                forall|x: int, y: int|
                    0 <= x < a && x < y < cs@.len() ==> node_key(t[cs@[x] as int].kind) != node_key(
                        t[cs@[y] as int].kind,
                    ),
                forall|y: int|
                    a < y < b ==> node_key(t[cs@[a as int] as int].kind) != node_key(
                        t[cs@[y] as int].kind,
                    ),
            decreases cs@.len() - b,
        {
            let p = cs[a];
            let q = cs[b];
            assert(t[i as int].children[a as int] == p);
            assert(t[i as int].children[b as int] == q);
            assert(t[p as int].kind == nodes@[p as int].kind@);
            assert(t[q as int].kind == nodes@[q as int].kind@);
            if same_key(&nodes[p].kind, &nodes[q].kind) {
                return false;
            }
            b = b + 1;
        }
        a = a + 1;
    }
    true
}

/// Whether a tree is well formed and no two siblings share a key.
fn check_tree(nodes: &Vec<CommandNode>) -> (r: bool)
    ensures
        r == tree_ok(nodes_view(nodes@)),
{
    let ghost t = nodes_view(nodes@);
    let n = nodes.len();
    if n == 0 {
        return false;
    }
    assert(t[0].kind == nodes@[0].kind@);
    match &nodes[0].kind {
        NodeKind::Root => {},
        _ => {
            return false;
        },
    }
    let mut i: usize = 0;
    while i < n
        invariant
            t == nodes_view(nodes@),
            n == t.len(),
            i <= n,
            forall|j: int, k: int|
                0 <= j < i && 0 <= k < t[j].children.len() ==> 0 <= #[trigger] t[j].children[k] < n,
            forall|j: int| 0 <= j < i && (#[trigger] t[j].redirect) is Some ==> t[j].redirect->0 < n,
        decreases n - i,
    {
        let cs = &nodes[i].children;
        assert(cs@ == t[i as int].children);
        assert(nodes[i as int].redirect == t[i as int].redirect);
        let mut k: usize = 0;
        while k < cs.len()
            invariant
                t == nodes_view(nodes@),
                n == t.len(),
                i < n,
                cs@ == t[i as int].children,
                k <= cs@.len(),
                forall|k2: int| 0 <= k2 < k ==> #[trigger] cs@[k2] < n,
            decreases cs@.len() - k,
        {
            if cs[k] >= n {
                assert(t[i as int].children[k as int] >= n);
                return false;
            }
            k = k + 1;
        }
        match nodes[i].redirect {
            Some(r) => {
                if r >= n {
                    return false;
                }
            },
            None => {},
        }
        proof {
            assert forall|j: int, k2: int|
                0 <= j < i + 1 && 0 <= k2 < t[j].children.len() implies 0 <= #[trigger] t[j].children[k2] < n by {
                if j == i {
                    assert(cs@[k2] < n);
                }
            }
        }
        i = i + 1;
    }
    assert(tree_wf(t));
    let mut j: usize = 0;
    while j < n
        invariant
            t == nodes_view(nodes@),
            n == t.len(),
            tree_wf(t),
            j <= n,
            forall|m: int| 0 <= m < j ==> #[trigger] siblings_unique(t, m),
        decreases n - j,
    {
        if !unique_children(nodes, j) {
            return false;
        }
        j = j + 1;
    }
    true
}

impl CommandDispatcher {
    pub open spec fn ok(&self) -> bool {
        tree_ok(self.view())
    }

    /// Adds the subtree that `builder` built under the root, and returns the
    /// index of its top node. The tree is left unchanged, and an error returned,
    /// where the subtree's top would share its key with a child of the root, two
    /// siblings inside the subtree would share a key, or a redirect would point
    /// outside the tree.
    pub fn register(&mut self, builder: ArgumentBuilder) -> (r: Result<usize, RegisterError>)
        requires
            old(self).wf(),
            builder.wf(),
            old(self).nodes@.len() + builder.nodes@.len() <= usize::MAX,
        ensures
            tree_ok(registered(old(self).view(), builder.view())) ==> r == Ok::<usize, RegisterError>(
                old(self).nodes@.len() as usize,
            ) && final(self).view() == registered(old(self).view(), builder.view()),
            !tree_ok(registered(old(self).view(), builder.view())) ==> r == Err::<usize, RegisterError>(
                RegisterError::InvalidTree,
            ) && final(self).view() == old(self).view(),
            final(self).wf(),
            old(self).ok() ==> final(self).ok(),
    {
        let ghost t = self.view();
        let ghost b = builder.view();
        let offset = self.nodes.len();
        let mut nodes: Vec<CommandNode> = Vec::new();
        let mut i: usize = 0;
        while i < offset
            invariant
                t == self.view(),
                offset == t.len(),
                i <= offset,
                nodes@.len() == i,
                forall|m: int| 0 <= m < i ==> nodes_view(nodes@)[m] == registered(t, b)[m],
            decreases offset - i,
        {
            let mut node = self.nodes[i].shifted(0);
            proof {
                let s = t[i as int];
                assert(shift_view(s, 0).children =~= s.children);
            }
            if i == 0 {
                node.children.push(offset);
            }
            nodes.push(node);
            proof {
                if i == 0 {
                    assert(nodes_view(nodes@)[0].children =~= t[0].children.push(offset));
                }
            }
            i = i + 1;
        }
        let mut j: usize = 0;
        while j < builder.nodes.len()
            invariant
                t == self.view(),
                b == builder.view(),
                builder.wf(),
                offset == t.len(),
                offset >= 1,
                offset + b.len() <= usize::MAX,
                j <= b.len(),
                nodes@.len() == offset + j,
                forall|m: int| 0 <= m < offset + j ==> nodes_view(nodes@)[m] == registered(t, b)[m],
            decreases b.len() - j,
        {
            proof {
                assert forall|k: int| 0 <= k < builder.nodes@[j as int].children@.len() implies builder.nodes@[j as int].children@[k]
                    + offset <= usize::MAX by {
                    assert(b[j as int].children[k] == builder.nodes@[j as int].children@[k]);
                }
            }
            nodes.push(builder.nodes[j].shifted(offset));
            proof {
                let m = offset + j;
                assert(b[j as int] == builder.nodes@[j as int]@);
                assert(nodes_view(nodes@)[m as int] == nodes@[m as int]@);
                let rv = registered(t, b);
                assert(rv.len() == t.len() + b.len());
                assert(m - t.len() == j);
                assert(rv[m as int] == shift_view(b[j as int], t.len() as int));
            }
            j = j + 1;
        }
        assert(nodes_view(nodes@) =~= registered(t, b));
        if check_tree(&nodes) {
            self.nodes = nodes;
            Ok(offset)
        } else {
            Err(RegisterError::InvalidTree)
        }
    }
}

} // verus!
