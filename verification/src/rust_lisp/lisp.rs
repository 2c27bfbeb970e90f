//! S-expression reader: a lexer that splits source text into atoms, parentheses and
//! string literals, and a recursive parser that builds a tree of nodes.
use crate::text::{char_string, is_char_str, is_whitespace, push_char, spec_is_whitespace};
use vstd::prelude::*;

verus! {

/// The reader's only error: the tokens ran out.
#[derive(Debug)]
pub enum NodeError {
    NoneLeft,
}

/// A parsed s-expression: an atom or a parenthesised list.
#[derive(Debug)]
#[allow(inconsistent_fields)]
pub enum Node {
    Value { s: String },
    List { s: Vec<Node> },
}

/// The mathematical model of a node.
pub enum NodeView {
    Value(Seq<char>),
    List(Seq<NodeView>),
}

pub open spec fn node_view(n: Node) -> NodeView
    decreases n,
{
    match n {
        Node::Value { s } => NodeView::Value(s@),
        Node::List { s } => NodeView::List(
            Seq::new(
                s@.len(),
                |i: int|
                    {
                        if 0 <= i < s@.len() {
                            proof {
                                assert(decreases_to!(n => s));
                                assert(decreases_to!(s => s@));
                            }
                            node_view(s@[i])
                        } else {
                            NodeView::Value(seq![])
                        }
                    },
            ),
        ),
    }
}

pub open spec fn nodes_view(s: Seq<Node>) -> Seq<NodeView> {
    Seq::new(s.len(), |i: int| node_view(s[i]))
}

/// The model of a list node is the list of its items' models.
pub proof fn lemma_list_view(v: Vec<Node>)
    ensures
        node_view(Node::List { s: v }) == NodeView::List(nodes_view(v@)),
{
    assert(node_view(Node::List { s: v })->List_0 =~= nodes_view(v@));
}

impl View for Node {
    type V = NodeView;

    open spec fn view(&self) -> NodeView {
        node_view(*self)
    }
}

/// A copy of a node with the same model.
fn copy_node(n: &Node) -> (r: Node)
    ensures
        r@ == n@,
    decreases n,
{
    match n {
        Node::Value { s } => {
            let r = Node::Value { s: s.clone() };
            assert(node_view(r) == NodeView::Value(s@));
            r
        },
        Node::List { s } => {
            let c = copy_nodes(s);
            proof {
                lemma_list_view(c);
                lemma_list_view(*s);
            }
            Node::List { s: c }
        },
    }
}

/// A copy of a list of nodes with the same models.
fn copy_nodes(v: &Vec<Node>) -> (r: Vec<Node>)
    ensures
        nodes_view(r@) == nodes_view(v@),
    decreases v,
{
    let mut r: Vec<Node> = Vec::new();
    let mut i: usize = 0;
    while i < v.len()
        invariant
            i <= v@.len(),
            r@.len() == i,
            forall|j: int| 0 <= j < i ==> node_view(#[trigger] r@[j]) == node_view(v@[j]),
        decreases v@.len() - i,
    {
        proof {
            assert(decreases_to!(v => v@));
            assert(decreases_to!(v@ => v@[i as int]));
        }
        let c = copy_node(&v[i]);
        r.push(c);
        i = i + 1;
    }
    assert(nodes_view(r@) =~= nodes_view(v@));
    r
}

impl Clone for Node {
    fn clone(&self) -> (r: Self)
        ensures
            r@ == self@,
    {
        copy_node(self)
    }
}

impl Node {
    /// The atom's text, or `None` for a list.
    pub fn assume_value(&self) -> (r: Option<String>)
        ensures
            match self@ {
                NodeView::Value(s) => r matches Some(t) && t@ == s,
                NodeView::List(_) => r is None,
            },
    {
        match self {
            Self::Value { s } => Some(s.clone()),
            Self::List { s: _ } => None,
        }
    }

    /// The list's items, or `None` for an atom.
    pub fn assume_list(&self) -> (r: Option<Vec<Node>>)
        ensures
            match self@ {
                NodeView::Value(_) => r is None,
                NodeView::List(items) => r matches Some(v) && nodes_view(v@) == items,
            },
    {
        match self {
            Self::Value { s: _ } => None,
            Self::List { s } => {
                let r = copy_nodes(s);
                proof {
                    lemma_list_view(*s);
                }
                Some(r)
            },
        }
    }
}

/// The lexer's state after reading a prefix of the source.
pub struct LexState {
    pub list: Seq<Seq<char>>,
    pub base: Seq<char>,
    pub in_string: bool,
    pub was_slash: bool,
}

/// The lexer's initial state.
pub open spec fn lex_init() -> LexState {
    LexState { list: seq![], base: seq![], in_string: false, was_slash: false }
}

/// `list` with `base` appended when `base` is not empty.
pub open spec fn flush(list: Seq<Seq<char>>, base: Seq<char>) -> Seq<Seq<char>> {
    if base.len() > 0 {
        list.push(base)
    } else {
        list
    }
}

/// One step of the lexer on character `c`.
///
/// Inside a string literal a backslash escapes the next character (the backslash is
/// dropped) and an unescaped quote closes the literal, which keeps both quotes.
/// Outside, whitespace separates atoms, each parenthesis is a token of its own, and a
/// quote starts a literal.
pub open spec fn lex_step(st: LexState, c: char) -> LexState {
    if st.in_string {
        if c == '"' && !st.was_slash {
            LexState {
                list: st.list.push(st.base.push(c)),
                base: seq![],
                in_string: false,
                was_slash: false,
            }
        } else if c == '\\' && !st.was_slash {
            LexState { was_slash: true, ..st }
        } else {
            LexState { base: st.base.push(c), was_slash: false, ..st }
        }
    } else if spec_is_whitespace(c) {
        LexState { list: flush(st.list, st.base), base: seq![], was_slash: false, ..st }
    } else if c == '(' || c == ')' {
        LexState {
            list: flush(st.list, st.base).push(seq![c]),
            base: seq![],
            was_slash: false,
            ..st
        }
    } else if c == '"' {
        LexState { list: flush(st.list, st.base), base: seq![c], in_string: true, was_slash: false }
    } else {
        LexState { base: st.base.push(c), was_slash: false, ..st }
    }
}

/// The lexer's state after reading all of `s`.
pub open spec fn lex_state(s: Seq<char>) -> LexState
    decreases s.len(),
{
    if s.len() == 0 {
        lex_init()
    } else {
        lex_step(lex_state(s.drop_last()), s.last())
    }
}

/// The tokens of `s`. An atom still being read when the text ends is not a token.
pub open spec fn lisp_tokens(s: Seq<char>) -> Seq<Seq<char>> {
    lex_state(s).list
}

/// A cursor over the tokens of a source text.
pub struct TokenList {
    list: Vec<String>,
    idx: usize,
}

impl View for TokenList {
    type V = (Seq<Seq<char>>, int);

    closed spec fn view(&self) -> (Seq<Seq<char>>, int) {
        (Seq::new(self.list@.len(), |i: int| self.list@[i]@), self.idx as int)
    }
}

impl TokenList {
    /// The tokens still to be read start at this position.
    pub closed spec fn wf(&self) -> bool {
        self.idx <= self.list@.len()
    }

    /// Splits `v` into tokens; the cursor starts at the first one.
    pub fn new(v: &str) -> (r: Self)
        ensures
            r.wf(),
            r@.0 == lisp_tokens(v@),
            r@.1 == 0,
    {
        broadcast use vstd::string::group_string_axioms;

        let mut list: Vec<String> = Vec::new();
        let mut base = String::new();
        let mut in_string = false;
        let mut was_slash = false;
        for i in it: v.chars()
            invariant
                it.seq() == v@,
                ({
                    let st = lex_state(v@.take(it.index() as int));
                    &&& Seq::new(list@.len(), |k: int| list@[k]@) == st.list
                    &&& base@ == st.base
                    &&& in_string == st.in_string
                    &&& was_slash == st.was_slash
                }),
        {
            let ghost pre = v@.take(it.index() as int);
            proof {
                let post = v@.take(it.index() + 1);
                assert(post.drop_last() == pre);
                assert(post.last() == i);
            }
            let ghost old_list = Seq::new(list@.len(), |k: int| list@[k]@);
            if in_string {
                if i == '"' && !was_slash {
                    push_char(&mut base, i);
                    if !base.as_str().is_empty() {
                        list.push(base);
                    }
                    base = String::new();
                    in_string = false;
                    was_slash = false;
                } else if i == '\\' && !was_slash {
                    was_slash = true;
                } else {
                    push_char(&mut base, i);
                    was_slash = false;
                }
            } else if is_whitespace(i) {
                was_slash = false;
                if !base.as_str().is_empty() {
                    list.push(base);
                }
                base = String::new();
            } else if i == '(' || i == ')' {
                was_slash = false;
                if !base.as_str().is_empty() {
                    list.push(base);
                }
                list.push(char_string(i));
                base = String::new();
            } else if i == '"' {
                if !base.as_str().is_empty() {
                    list.push(base);
                }
                base = char_string(i);
                in_string = true;
                was_slash = false;
            } else {
                push_char(&mut base, i);
                was_slash = false;
            }
            assert(Seq::new(list@.len(), |k: int| list@[k]@) =~= lex_state(
                v@.take(it.index() + 1),
            ).list);
        }
        assert(v@.take(v@.len() as int) == v@);
        Self { list, idx: 0 }
    }

    /// The token under the cursor, or an error when none is left.
    pub fn peek(&self) -> (r: Result<String, NodeError>)
        requires
            self.wf(),
        ensures
            self@.1 < self@.0.len() ==> (r matches Ok(t) && t@ == self@.0[self@.1]),
            self@.1 >= self@.0.len() ==> r is Err,
    {
        if self.idx >= self.list.len() {
            Err(NodeError::NoneLeft)
        } else {
            Ok(self.list[self.idx].clone())
        }
    }

    /// The token under the cursor, and the cursor moves past it; an error when none is left.
    pub fn next_item(&mut self) -> (r: Result<String, NodeError>)
        requires
            old(self).wf(),
        ensures
            final(self).wf(),
            final(self)@.0 == old(self)@.0,
            old(self)@.1 < old(self)@.0.len() ==> (r matches Ok(t) && t@ == old(self)@.0[old(
                self,
            )@.1] && final(self)@.1 == old(self)@.1 + 1),
            old(self)@.1 >= old(self)@.0.len() ==> r is Err && final(self)@.1 == old(self)@.1,
    {
        if self.idx >= self.list.len() {
            Err(NodeError::NoneLeft)
        } else {
            let out = self.idx;
            self.idx += 1;
            Ok(self.list[out].clone())
        }
    }

    /// Whether no token is left.
    pub fn is_empty(&self) -> (r: bool)
        ensures
            r == (self@.1 >= self@.0.len()),
    {
        self.idx >= self.list.len()
    }
}

/// The node that starts at token `i`, and the position after it; `None` when the
/// tokens run out first.
pub open spec fn parse_node_at(toks: Seq<Seq<char>>, i: int) -> Option<(NodeView, int)>
    decreases toks.len() - i, 0int,
{
    if i < 0 || i >= toks.len() {
        None
    } else if toks[i] == seq!['('] {
        match parse_items_at(toks, i + 1, seq![]) {
            Some((items, j)) => Some((NodeView::List(items), j)),
            None => None,
        }
    } else {
        Some((NodeView::Value(toks[i]), i + 1))
    }
}

/// The items of a list from token `i` on, after `acc`, up to and past the closing
/// parenthesis; `None` when the tokens run out first.
pub open spec fn parse_items_at(toks: Seq<Seq<char>>, i: int, acc: Seq<NodeView>) -> Option<
    (Seq<NodeView>, int),
>
    decreases toks.len() - i, 1int,
{
    if i < 0 || i >= toks.len() {
        None
    } else if toks[i] == seq![')'] {
        Some((acc, i + 1))
    } else {
        match parse_node_at(toks, i) {
            Some((n, j)) => if i < j <= toks.len() {
                parse_items_at(toks, j, acc.push(n))
            } else {
                None
            },
            None => None,
        }
    }
}

/// A parsed node always lies after the position it started from, within the tokens.
pub proof fn lemma_parse_advances(toks: Seq<Seq<char>>, i: int)
    ensures
        parse_node_at(toks, i) matches Some((_, j)) ==> i < j <= toks.len(),
    decreases toks.len() - i, 0int,
{
    if 0 <= i < toks.len() && toks[i] == seq!['('] {
        lemma_items_advance(toks, i + 1, seq![]);
    }
}

/// A parsed list tail always lies after the position it started from, within the tokens.
pub proof fn lemma_items_advance(toks: Seq<Seq<char>>, i: int, acc: Seq<NodeView>)
    ensures
        parse_items_at(toks, i, acc) matches Some((_, j)) ==> i < j <= toks.len(),
    decreases toks.len() - i, 1int,
{
    if 0 <= i < toks.len() && toks[i] != seq![')'] {
        lemma_parse_advances(toks, i);
        if let Some((n, j)) = parse_node_at(toks, i) {
            if i < j <= toks.len() {
                lemma_items_advance(toks, j, acc.push(n));
            }
        }
    }
}

/// Reads one node from the cursor. On success the cursor is just past the node; on
/// failure every token has been read.
pub fn parse_node(list: &mut TokenList) -> (r: Result<Node, NodeError>)
    requires
        old(list).wf(),
    ensures
        final(list).wf(),
        final(list)@.0 == old(list)@.0,
        match parse_node_at(old(list)@.0, old(list)@.1) {
            Some((n, j)) => r matches Ok(node) && node@ == n && final(list)@.1 == j,
            None => r is Err && final(list)@.1 == old(list)@.0.len(),
        },
    decreases old(list)@.0.len() - old(list)@.1,
{
    let ghost toks = list@.0;
    let ghost start = list@.1;
    let s = list.next_item()?;
    if is_char_str(s.as_str(), '(') {
        let mut l: Vec<Node> = Vec::new();
        assert(nodes_view(l@) =~= seq![]);
        loop
            invariant_except_break
                old(list)@.0 == toks,
                old(list)@.1 == start,
                list.wf(),
                list@.0 == toks,
                start < list@.1,
                parse_items_at(toks, start + 1, seq![]) == parse_items_at(
                    toks,
                    list@.1,
                    nodes_view(l@),
                ),
                toks[start] == seq!['('],
            ensures
                old(list)@.0 == toks,
                old(list)@.1 == start,
                list.wf(),
                list@.0 == toks,
                parse_items_at(toks, start + 1, seq![]) == Some((nodes_view(l@), list@.1)),
            decreases toks.len() - list@.1,
        {
            proof {
                lemma_items_advance(toks, list@.1, nodes_view(l@));
            }
            let n = match list.peek() {
                Ok(n) => n,
                Err(e) => {
                    return Err(e);
                },
            };
            if is_char_str(n.as_str(), ')') {
                let _ = list.next_item();
                break;
            }
            proof {
                lemma_parse_advances(toks, list@.1);
            }
            let ghost before = list@.1;
            let node = match parse_node(list) {
                Ok(node) => node,
                Err(e) => {
                    return Err(e);
                },
            };
            let ghost lv = nodes_view(l@);
            l.push(node);
            assert(nodes_view(l@) =~= lv.push(node@));
        }
        proof {
            lemma_list_view(l);
        }
        Ok(Node::List { s: l })
    } else {
        Ok(Node::Value { s })
    }
}

/// The nodes of a token sequence from position `i` on, after `acc`; `None` when a node
/// runs out of tokens.
pub open spec fn parse_all_at(toks: Seq<Seq<char>>, i: int, acc: Seq<NodeView>) -> Option<
    Seq<NodeView>,
>
    decreases toks.len() - i,
{
    if i < 0 || i >= toks.len() {
        Some(acc)
    } else {
        match parse_node_at(toks, i) {
            Some((n, j)) => if i < j <= toks.len() {
                parse_all_at(toks, j, acc.push(n))
            } else {
                None
            },
            None => None,
        }
    }
}

/// The nodes of a whole source text; `None` when a list is not closed.
pub open spec fn parse_source(s: Seq<char>) -> Option<Seq<NodeView>> {
    parse_all_at(lisp_tokens(s), 0, seq![])
}

/// Parses every node of a source text.
pub fn parse_string(s: &str) -> (r: Result<Vec<Node>, NodeError>)
    ensures
        match parse_source(s@) {
            Some(ns) => r matches Ok(v) && nodes_view(v@) == ns,
            None => r is Err,
        },
{
    let mut tt = TokenList::new(s);
    let ghost toks = tt@.0;
    let mut out: Vec<Node> = Vec::new();
    assert(nodes_view(out@) =~= seq![]);
    while !tt.is_empty()
        invariant
            tt.wf(),
            tt@.0 == toks,
            toks == lisp_tokens(s@),
            parse_all_at(toks, 0, seq![]) == parse_all_at(toks, tt@.1, nodes_view(out@)),
        decreases toks.len() - tt@.1,
    {
        proof {
            lemma_parse_advances(toks, tt@.1);
        }
        let p = parse_node(&mut tt)?;
        let ghost ov = nodes_view(out@);
        out.push(p);
        assert(nodes_view(out@) =~= ov.push(p@));
    }
    Ok(out)
}

/// The atoms as nodes, in order.
pub open spec fn value_nodes(atoms: Seq<Seq<char>>) -> Seq<NodeView> {
    atoms.map_values(|a: Seq<char>| NodeView::Value(a))
}

proof fn lemma_flat_items(atoms: Seq<Seq<char>>, k: nat)
    requires
        k <= atoms.len(),
        forall|j: int| 0 <= j < atoms.len() ==> #[trigger] atoms[j] != seq!['('] && atoms[j] != seq![')'],
    ensures
        ({
            let toks = seq![seq!['(']] + atoms + seq![seq![')']];
            parse_items_at(toks, k as int + 1, value_nodes(atoms.take(k as int))) == Some((value_nodes(atoms), toks.len() as int))
        }),
    decreases atoms.len() - k,
{
    let toks = seq![seq!['(']] + atoms + seq![seq![')']];
    if k == atoms.len() {
        assert(toks[k as int + 1] == seq![')']);
        assert(atoms.take(k as int) =~= atoms);
    } else {
        assert(toks[k as int + 1] == atoms[k as int]);
        assert(parse_node_at(toks, k as int + 1) == Some((NodeView::Value(atoms[k as int]), k as int + 2)));
        assert(value_nodes(atoms.take(k as int)).push(NodeView::Value(atoms[k as int])) =~= value_nodes(
            atoms.take(k as int + 1),
        ));
        lemma_flat_items(atoms, k + 1);
    }
}

/// A parenthesised list of atoms reads as a list of those atoms, in the order they are
/// written, ending after its closing parenthesis.
pub proof fn law_flat_list_in_order(atoms: Seq<Seq<char>>)
    requires
        forall|j: int| 0 <= j < atoms.len() ==> #[trigger] atoms[j] != seq!['('] && atoms[j] != seq![')'],
    ensures
        parse_node_at(seq![seq!['(']] + atoms + seq![seq![')']], 0) == Some(
            (NodeView::List(value_nodes(atoms)), atoms.len() as int + 2),
        ),
{
    lemma_flat_items(atoms, 0);
    assert(atoms.take(0) =~= Seq::<Seq<char>>::empty());
    assert(value_nodes(atoms.take(0)) =~= Seq::<NodeView>::empty());
}

} // verus!
