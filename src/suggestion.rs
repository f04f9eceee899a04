use vstd::prelude::*;
use crate::context::StringRange;
use crate::dispatcher::{CommandDispatcher, ParseResults};
use crate::dispatcher::parse_spec;
use crate::execution::CommandSource;
use crate::string_reader::copy_range;
use crate::text::chars_of;
use crate::tree::NodeKind;

verus! {

/// A completion: the text that would replace the input in `range`.
#[derive(Debug)]
pub struct Suggestion {
    pub range: StringRange,
    pub text: Vec<char>,
}

/// Lexicographic order on character sequences, a proper prefix first.
pub open spec fn lex_lt(a: Seq<char>, b: Seq<char>) -> bool
    decreases a.len(),
{
    if a.len() == 0 {
        b.len() > 0
    } else if b.len() == 0 {
        false
    } else if a[0] != b[0] {
        a[0] < b[0]
    } else {
        lex_lt(a.drop_first(), b.drop_first())
    }
}

pub proof fn lemma_lex_irreflexive(a: Seq<char>)
    ensures
        !lex_lt(a, a),
    decreases a.len(),
{
    if a.len() > 0 {
        lemma_lex_irreflexive(a.drop_first());
    }
}

pub proof fn lemma_lex_total(a: Seq<char>, b: Seq<char>)
    ensures
        a == b || lex_lt(a, b) || lex_lt(b, a),
    decreases a.len(),
{
    if a.len() > 0 && b.len() > 0 && a[0] == b[0] {
        lemma_lex_total(a.drop_first(), b.drop_first());
        if a.drop_first() == b.drop_first() {
            assert(a =~= seq![a[0]] + a.drop_first());
            assert(b =~= seq![b[0]] + b.drop_first());
        }
    } else if a.len() == 0 && b.len() == 0 {
        assert(a =~= b);
    }
}

pub proof fn lemma_lex_transitive(a: Seq<char>, b: Seq<char>, c: Seq<char>)
    requires
        lex_lt(a, b),
        lex_lt(b, c),
    ensures
        lex_lt(a, c),
    decreases a.len(),
{
    if a.len() > 0 && b.len() > 0 && c.len() > 0 && a[0] == b[0] && b[0] == c[0] {
        lemma_lex_transitive(a.drop_first(), b.drop_first(), c.drop_first());
    }
}

/// Whether `a` comes before `b`.
fn chars_less(a: &Vec<char>, b: &Vec<char>) -> (r: bool)
    ensures
        r == lex_lt(a@, b@),
{
    let mut i: usize = 0;
    assert(a@.subrange(0, a@.len() as int) =~= a@);
    assert(b@.subrange(0, b@.len() as int) =~= b@);
    while i < a.len() && i < b.len() && a[i] == b[i]
        invariant
            i <= a@.len(),
            i <= b@.len(),
            lex_lt(a@, b@) == lex_lt(a@.subrange(i as int, a@.len() as int), b@.subrange(i as int, b@.len() as int)),
        decreases a@.len() - i,
    {
        proof {
            let sa = a@.subrange(i as int, a@.len() as int);
            let sb = b@.subrange(i as int, b@.len() as int);
            assert(sa.drop_first() =~= a@.subrange(i + 1, a@.len() as int));
            assert(sb.drop_first() =~= b@.subrange(i + 1, b@.len() as int));
        }
        i = i + 1;
    }
    let ghost sa = a@.subrange(i as int, a@.len() as int);
    let ghost sb = b@.subrange(i as int, b@.len() as int);
    if i == a.len() {
        i < b.len()
    } else if i == b.len() {
        false
    } else {
        assert(sa[0] == a@[i as int] && sb[0] == b@[i as int]);
        a[i] < b[i]
    }
}

/// Whether `p` is a prefix of `s`.
pub open spec fn has_prefix(s: Seq<char>, p: Seq<char>) -> bool {
    p.len() <= s.len() && s.subrange(0, p.len() as int) == p
}

fn starts_with(s: &Vec<char>, input: &Vec<char>, from: usize) -> (r: bool)
    requires
        from <= input@.len(),
    ensures
        r == has_prefix(s@, input@.subrange(from as int, input@.len() as int)),
{
    let m = input.len();
    let n = m - from;
    if n > s.len() {
        return false;
    }
    let mut i: usize = 0;
    while i < n
        invariant
            n == input@.len() - from,
            m == input@.len(),
            n <= s@.len(),
            from <= input@.len(),
            i <= n,
            forall|j: int| 0 <= j < i ==> s@[j] == input@[from + j],
        decreases n - i,
    {
        if s[i] != input[from + i] {
            assert(input@.subrange(from as int, input@.len() as int)[i as int] == input@[from + i]);
            assert(s@.subrange(0, n as int)[i as int] == s@[i as int]);
            return false;
        }
        i = i + 1;
    }
    assert(s@.subrange(0, n as int) =~= input@.subrange(from as int, input@.len() as int));
    true
}

/// The texts of a list of suggestions come in strictly increasing order.
pub open spec fn sorted_texts(v: Seq<Suggestion>) -> bool {
    forall|i: int, j: int| 0 <= i < j < v.len() ==> lex_lt(v[i].text@, v[j].text@)
}

/// Node `c` is a literal whose text begins with `p`.
pub open spec fn literal_with_prefix(t: Seq<crate::tree::NodeView>, c: usize, p: Seq<char>) -> bool {
    c < t.len() && t[c as int].kind is Literal && has_prefix(t[c as int].kind->Literal_0, p)
}

/// `text` is the text of a literal among `cs` that begins with `p`.
pub open spec fn from_child(t: Seq<crate::tree::NodeView>, cs: Seq<usize>, p: Seq<char>, text: Seq<char>) -> bool {
    exists|k: int| 0 <= k < cs.len() && literal_with_prefix(t, cs[k], p) && text == #[trigger] t[cs[k] as int].kind->Literal_0
}

/// Some suggestion in `r` has the text `text`.
pub open spec fn in_texts(r: Seq<Suggestion>, text: Seq<char>) -> bool {
    exists|i: int| 0 <= i < r.len() && (#[trigger] r[i]).text@ == text
}

/// `r` suggests, in lexicographic order and without repeats, exactly the texts
/// of the literal children of `parent` that begin with `input[start..]`, each
/// replacing `input[start..]`.
pub open spec fn suggestions_for(
    t: Seq<crate::tree::NodeView>,
    parent: usize,
    input: Seq<char>,
    start: int,
    r: Seq<Suggestion>,
) -> bool {
    let p = input.subrange(start, input.len() as int);
    let cs = t[parent as int].children;
    &&& sorted_texts(r)
    &&& forall|i: int|
        0 <= i < r.len() ==> (#[trigger] r[i]).range == (StringRange {
            start: start as usize,
            end: input.len() as usize,
        })
    &&& forall|i: int| 0 <= i < r.len() ==> from_child(t, cs, p, (#[trigger] r[i]).text@)
    &&& forall|k: int|
        0 <= k < cs.len() && literal_with_prefix(t, #[trigger] cs[k], p) ==> in_texts(
            r,
            t[cs[k] as int].kind->Literal_0,
        )
}

/// Where completion happens after a parse: the node whose children are offered,
/// and where the text they would replace begins. Where the parse stopped early,
/// that is the last node matched and the stopping point (past a separator);
/// where it read everything, the node before the last one matched and the start
/// of the last one.
pub open spec fn suggestion_point(pv: crate::dispatcher::ParseView, input: Seq<char>) -> Option<(usize, int)> {
    if pv.contexts.len() == 0 {
        None
    } else {
        let ctx = pv.contexts.last();
        let n = ctx.nodes.len();
        if pv.cursor < input.len() {
            let parent = if n > 0 { ctx.nodes[n - 1].node } else { ctx.root };
            let start = if 0 <= pv.cursor && input[pv.cursor] == ' ' { pv.cursor + 1 } else { pv.cursor };
            Some((parent, start))
        } else if n > 0 {
            let parent = if n > 1 { ctx.nodes[n - 2].node } else { ctx.root };
            Some((parent, ctx.nodes[n - 1].range.start as int))
        } else {
            Some((ctx.root, pv.cursor))
        }
    }
}

impl CommandDispatcher {
    /// Completions for `input` with the cursor at `cursor`: the text before the
    /// cursor is parsed for `source`, and completed as at the end of a line.
    pub fn get_completion_suggestions_at<S: CommandSource>(&self, input: &str, cursor: usize, source: &S) -> (r: Vec<Suggestion>)
        requires
            self.wf(),
        ensures
            exists|usable: Seq<bool>, p: ParseResults|
                usable.len() == self.view().len() && (forall|i: int|
                    0 <= i < usable.len() && self.view()[i].requirement is None ==> #[trigger] usable[i])
                    && p.input@ == input@.subrange(0, if cursor <= input@.len() { cursor as int } else { input@.len() as int })
                    && p.view() == parse_spec(self.view(), p.input@, usable)
                    && match suggestion_point(p.view(), p.input@) {
                    Some((parent, start)) => if parent < self.view().len() && 0 <= start <= p.input@.len() {
                        suggestions_for(self.view(), parent, p.input@, start, r@)
                    } else {
                        r@.len() == 0
                    },
                    None => r@.len() == 0,
                },
    {
        let all = chars_of(input);
        let end = if cursor <= all.len() { cursor } else { all.len() };
        let before = copy_range(&all, 0, end);
        let usable = self.usable_nodes(source);
        let parse = self.parse_with(before, &usable);
        self.get_completion_suggestions(&parse)
    }

    /// Completions for the end of a parsed line: the literal children of the node
    /// being typed whose text begins with what has been typed of it.
    pub fn get_completion_suggestions(&self, parse: &ParseResults) -> (r: Vec<Suggestion>)
        ensures
            match suggestion_point(parse.view(), parse.input@) {
                Some((parent, start)) => if parent < self.view().len() && 0 <= start <= parse.input@.len() {
                    suggestions_for(self.view(), parent, parse.input@, start, r@)
                } else {
                    r@.len() == 0
                },
                None => r@.len() == 0,
            },
    {
        let n = parse.contexts.len();
        let len = parse.input.len();
        if n == 0 {
            return Vec::new();
        }
        let ctx = &parse.contexts[n - 1];
        assert(parse.view().contexts.last() == ctx@);
        let m = ctx.nodes.len();
        let (parent, start): (usize, usize) = if parse.cursor < len {
            let parent = if m > 0 { ctx.nodes[m - 1].node } else { ctx.root };
            let start = if parse.input[parse.cursor] == ' ' { parse.cursor + 1 } else { parse.cursor };
            (parent, start)
        } else if m > 0 {
            let parent = if m > 1 { ctx.nodes[m - 2].node } else { ctx.root };
            (parent, ctx.nodes[m - 1].range.start)
        } else {
            (ctx.root, parse.cursor)
        };
        if parent < self.nodes.len() && start <= len {
            self.suggest_literals(parent, &parse.input, start)
        } else {
            Vec::new()
        }
    }

    /// The literal children of `parent` whose text begins with `input[start..]`,
    /// in lexicographic order and without repeats, each replacing `input[start..]`.
    pub fn suggest_literals(&self, parent: usize, input: &Vec<char>, start: usize) -> (r: Vec<Suggestion>)
        requires
            parent < self.view().len(),
            start <= input@.len(),
        ensures
            suggestions_for(self.view(), parent, input@, start as int, r@),
    {
        let ghost t = self.view();
        let ghost p = input@.subrange(start as int, input@.len() as int);
        let cs = &self.nodes[parent].children;
        assert(cs@ == t[parent as int].children);
        let end = input.len();
        let mut r: Vec<Suggestion> = Vec::new();
        let mut k: usize = 0;
        while k < cs.len()
            invariant
                t == self.view(),
                parent < t.len(),
                cs@ == t[parent as int].children,
                p == input@.subrange(start as int, input@.len() as int),
                end == input@.len(),
                start <= end,
                k <= cs@.len(),
                sorted_texts(r@),
                forall|i: int| 0 <= i < r@.len() ==> (#[trigger] r@[i]).range == (StringRange { start, end }),
                forall|i: int| 0 <= i < r@.len() ==> from_child(t, cs@, p, (#[trigger] r@[i]).text@),
                forall|k2: int|
                    0 <= k2 < k && literal_with_prefix(t, #[trigger] cs@[k2], p) ==> in_texts(
                        r@,
                        t[cs@[k2] as int].kind->Literal_0,
                    ),
            decreases cs@.len() - k,
        {
            let c = cs[k];
            if c < self.nodes.len() {
                assert(t[c as int].kind == self.nodes@[c as int].kind@);
                match &self.nodes[c].kind {
                    NodeKind::Literal(l) => {
                        if starts_with(l, input, start) {
                            let ghost lv = l@;
                            let ghost old_r = r@;
                            // the first position whose text does not come before `l`
                            let mut pos: usize = 0;
                            while pos < r.len() && chars_less(&r[pos].text, l)
                                invariant
                                    pos <= r@.len(),
                                    r@ == old_r,
                                    forall|i: int| 0 <= i < pos ==> lex_lt(r@[i].text@, lv),
                                    l@ == lv,
                                decreases r@.len() - pos,
                            {
                                pos = pos + 1;
                            }
                            let duplicate = pos < r.len() && crate::text::chars_equal(&r[pos].text, l);
                            if !duplicate {
                                proof {
                                    if pos < r@.len() {
                                        lemma_lex_total(r@[pos as int].text@, lv);
                                    }
                                }
                                let s = Suggestion {
                                    range: StringRange { start, end },
                                    text: copy_range(l, 0, l.len()),
                                };
                                assert(s.text@ =~= lv);
                                r.insert(pos, s);
                                proof {
                                    assert forall|i: int, j: int| 0 <= i < j < r@.len() implies lex_lt(r@[i].text@, r@[j].text@) by {
                                        if j < pos {
                                            assert(r@[i] == old_r[i] && r@[j] == old_r[j]);
                                        } else if j == pos {
                                            assert(r@[i] == old_r[i]);
                                        } else if i == pos {
                                            assert(r@[j] == old_r[j - 1]);
                                            if j - 1 > pos {
                                                lemma_lex_transitive(lv, old_r[pos as int].text@, old_r[j - 1].text@);
                                            }
                                        } else if i < pos {
                                            assert(r@[i] == old_r[i] && r@[j] == old_r[j - 1]);
                                        } else {
                                            assert(r@[i] == old_r[i - 1] && r@[j] == old_r[j - 1]);
                                        }
                                    }
                                    assert forall|i: int| 0 <= i < r@.len() implies from_child(t, cs@, p, (#[trigger] r@[i]).text@) by {
                                        if i < pos {
                                            assert(r@[i] == old_r[i]);
                                        } else if i == pos {
                                            assert(literal_with_prefix(t, cs@[k as int], p));
                                            assert(r@[i].text@ == t[cs@[k as int] as int].kind->Literal_0);
                                        } else {
                                            assert(r@[i] == old_r[i - 1]);
                                        }
                                    }
                                    assert forall|k2: int|
                                        0 <= k2 < k + 1 && literal_with_prefix(t, #[trigger] cs@[k2], p) implies in_texts(
                                            r@,
                                            t[cs@[k2] as int].kind->Literal_0,
                                        ) by {
                                        if k2 == k {
                                            assert(r@[pos as int].text@ == lv);
                                        } else {
                                            let i = choose|i: int| 0 <= i < old_r.len() && (#[trigger] old_r[i]).text@ == t[cs@[k2] as int].kind->Literal_0;
                                            if i < pos {
                                                assert(r@[i] == old_r[i]);
                                            } else {
                                                assert(r@[i + 1] == old_r[i]);
                                            }
                                        }
                                    }
                                    assert forall|i: int| 0 <= i < r@.len() implies (#[trigger] r@[i]).range == (StringRange { start, end }) by {
                                        if i < pos {
                                            assert(r@[i] == old_r[i]);
                                        } else if i > pos {
                                            assert(r@[i] == old_r[i - 1]);
                                        }
                                    }
                                }
                            } else {
                                assert(r@[pos as int].text@ == lv);
                            }
                        }
                    },
                    _ => {},
                }
            }
            k = k + 1;
        }
        r
    }
}

} // verus!
