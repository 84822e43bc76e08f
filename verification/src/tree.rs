//! Lightweight tree of block-structured Ruby constructs, built from the
//! token stream.  Not a full parse: good enough for structural rules
//! (method/class length, nesting) without depth tracking in every rule.
use vstd::prelude::*;

use crate::token::{Token, TokenKind};

verus! {

/// Kinds of nodes that the tree builder recognises.
#[derive(Debug, Clone, Copy, PartialEq, Eq, Structural)]
pub enum NodeKind {
    Method,
    Class,
    Module,
    Block,
    If,
    Unless,
    While,
    Until,
    For,
    Case,
    Begin,
    Do,
}

/// A single node of the tree.
#[derive(Debug)]
pub struct Node {
    pub kind: NodeKind,
    /// 1-based line of the opening keyword.
    pub start_line: usize,
    /// 1-based line of the matching `end`.
    pub end_line: usize,
    pub children: Vec<Node>,
    /// Method / class / module name, if available.
    pub name: Option<String>,
}

/// The mathematical value of a [`Node`].
pub struct NodeModel {
    pub kind: NodeKind,
    pub start_line: usize,
    pub end_line: usize,
    pub children: Seq<NodeModel>,
    pub name: Option<Seq<char>>,
}

pub open spec fn name_model(name: Option<String>) -> Option<Seq<char>> {
    match name {
        Some(s) => Some(s@),
        None => None,
    }
}

pub open spec fn node_model(n: Node) -> NodeModel
    decreases n, 1int,
{
    NodeModel {
        kind: n.kind,
        start_line: n.start_line,
        end_line: n.end_line,
        children: nodes_model(n.children@),
        name: name_model(n.name),
    }
}

pub open spec fn nodes_model(s: Seq<Node>) -> Seq<NodeModel>
    decreases s, 0int,
{
    if s.len() == 0 {
        seq![]
    } else {
        nodes_model(s.drop_last()).push(node_model(s.last()))
    }
}

impl Clone for Node {
    fn clone(&self) -> (c: Node)
        ensures
            node_model(c) == node_model(*self),
        decreases self,
    {
        let mut children: Vec<Node> = Vec::new();
        let mut i: usize = 0;
        assert(self.children@.take(0) =~= Seq::<Node>::empty());
        while i < self.children.len()
            invariant
                i <= self.children@.len(),
                nodes_model(children@) == nodes_model(self.children@.take(i as int)),
            decreases self.children@.len() - i,
        {
            proof {
                assert(decreases_to!(self => self.children));
                assert(decreases_to!(self.children => self.children@));
                assert(decreases_to!(self.children@ => self.children@[i as int]));
            }
            let child = self.children[i].clone();
            proof {
                lemma_nodes_model_push(children@, child);
                lemma_nodes_model_push(self.children@.take(i as int), self.children@[i as int]);
                assert(self.children@.take(i + 1) =~= self.children@.take(i as int).push(
                    self.children@[i as int],
                ));
            }
            children.push(child);
            i = i + 1;
        }
        assert(self.children@.take(self.children@.len() as int) =~= self.children@);
        let name = match &self.name {
            Some(s) => Some(s.clone()),
            None => None,
        };
        Node {
            kind: self.kind,
            start_line: self.start_line,
            end_line: self.end_line,
            children,
            name,
        }
    }
}

/// The model of a sequence grows by the model of a pushed node.
pub proof fn lemma_nodes_model_push(s: Seq<Node>, n: Node)
    ensures
        nodes_model(s.push(n)) == nodes_model(s).push(node_model(n)),
{
    assert(s.push(n).drop_last() =~= s);
}

// ---------------------------------------------------------------------------
// What the builder computes
// ---------------------------------------------------------------------------

pub open spec fn is_trivia(k: TokenKind) -> bool {
    k is Whitespace || k is Comment
}

/// The token at `i` starts a statement: every token between the last
/// newline before it (or the start of the stream) and `i` is whitespace or
/// a comment.
pub open spec fn at_statement_start(toks: Seq<Token>, i: int) -> bool {
    forall|k: int|
        #![trigger toks[k]]
        0 <= k < i && (forall|m: int| k < m < i ==> !(#[trigger] toks[m].kind is Newline)) ==> (
        toks[k].kind is Newline || is_trivia(toks[k].kind))
}

/// The text of the first token at or after `from` that is neither
/// whitespace nor a newline; `<unknown>` when there is none.
pub open spec fn name_from(toks: Seq<Token>, from: int) -> Seq<char>
    decreases toks.len() - from,
{
    if from < 0 || from >= toks.len() {
        "<unknown>"@
    } else if toks[from].kind is Whitespace || toks[from].kind is Newline {
        name_from(toks, from + 1)
    } else {
        toks[from].text@
    }
}

/// Nodes found from index `i` up to the first `end` / end of input at this
/// level, and the index where the scan stopped.
pub open spec fn level_spec(toks: Seq<Token>, i: int) -> (Seq<NodeModel>, int)
    decreases toks.len() - i, 3int,
{
    if i < 0 || i >= toks.len() {
        (seq![], i)
    } else if toks[i].kind is End || toks[i].kind is Eof {
        (seq![], i)
    } else {
        let (item, j) = item_spec(toks, i);
        if i < j <= toks.len() {
            let (rest, k) = level_spec(toks, j);
            (
                match item {
                    Some(n) => seq![n] + rest,
                    None => rest,
                },
                k,
            )
        } else {
            (seq![], j)
        }
    }
}

/// What the token at `i` contributes: a node for a block opener, nothing
/// for any other token or for a postfix `if`/`unless`/`while`/`until`;
/// and the index after it.
pub open spec fn item_spec(toks: Seq<Token>, i: int) -> (Option<NodeModel>, int)
    decreases toks.len() - i, 2int,
{
    if i < 0 || i >= toks.len() {
        (None, i + 1)
    } else {
        match toks[i].kind {
            TokenKind::Def => {
                let (n, j) = block_spec(toks, i, NodeKind::Method, true);
                (Some(n), j)
            },
            TokenKind::Class => {
                let (n, j) = block_spec(toks, i, NodeKind::Class, true);
                (Some(n), j)
            },
            TokenKind::Module => {
                let (n, j) = block_spec(toks, i, NodeKind::Module, true);
                (Some(n), j)
            },
            TokenKind::Begin => {
                let (n, j) = block_spec(toks, i, NodeKind::Begin, false);
                (Some(n), j)
            },
            TokenKind::Case => {
                let (n, j) = block_spec(toks, i, NodeKind::Case, false);
                (Some(n), j)
            },
            TokenKind::Do => {
                let (n, j) = block_spec(toks, i, NodeKind::Do, false);
                (Some(n), j)
            },
            TokenKind::For => {
                let (n, j) = block_spec(toks, i, NodeKind::For, false);
                (Some(n), j)
            },
            TokenKind::If => modifier_spec(toks, i, NodeKind::If),
            TokenKind::Unless => modifier_spec(toks, i, NodeKind::Unless),
            TokenKind::While => modifier_spec(toks, i, NodeKind::While),
            TokenKind::Until => modifier_spec(toks, i, NodeKind::Until),
            _ => (None, i + 1),
        }
    }
}

/// A keyword that opens a block at the start of a statement and is a
/// modifier elsewhere.
pub open spec fn modifier_spec(toks: Seq<Token>, i: int, kind: NodeKind) -> (
    Option<NodeModel>,
    int,
)
    decreases toks.len() - i, 1int,
{
    if at_statement_start(toks, i) {
        let (n, j) = block_spec(toks, i, kind, false);
        (Some(n), j)
    } else {
        (None, i + 1)
    }
}

/// The node opened by the keyword at `i`, and the index after its `end`.
pub open spec fn block_spec(toks: Seq<Token>, i: int, kind: NodeKind, named: bool) -> (
    NodeModel,
    int,
)
    decreases toks.len() - i, 0int,
{
    if 0 <= i < toks.len() {
        let (children, end_line, j) = body_spec(toks, i + 1);
        (
            NodeModel {
                kind,
                start_line: toks[i].line,
                end_line,
                children,
                name: if named {
                    Some(name_from(toks, i + 1))
                } else {
                    None
                },
            },
            j,
        )
    } else {
        (NodeModel { kind, start_line: 0, end_line: 0, children: seq![], name: None }, i + 1)
    }
}

/// The children of a block whose body starts at `i`, the line of its
/// closing `end` (of the last token when input ends first), and the index
/// after the `end`.
pub open spec fn body_spec(toks: Seq<Token>, i: int) -> (Seq<NodeModel>, usize, int)
    decreases toks.len() - i, 4int,
{
    let (children, j) = level_spec(toks, i);
    if 0 <= j < toks.len() {
        (children, toks[j].line, if toks[j].kind is End {
            j + 1
        } else {
            j
        })
    } else {
        (children, if toks.len() > 0 {
            toks[toks.len() - 1].line
        } else {
            1
        }, j)
    }
}

/// The top-level nodes of a token stream.
pub open spec fn build_spec(toks: Seq<Token>) -> Seq<NodeModel> {
    level_spec(toks, 0).0
}


// ---------------------------------------------------------------------------
// Modifier keywords
// ---------------------------------------------------------------------------

pub open spec fn is_modifier_token(k: TokenKind) -> bool {
    k is If || k is Unless || k is While || k is Until
}

pub open spec fn is_modifier_node(k: NodeKind) -> bool {
    k is If || k is Unless || k is While || k is Until
}

/// Neither the node nor any node below it is an `if`/`unless`/`while`/
/// `until` block.
pub open spec fn free_of_modifier_nodes(n: NodeModel) -> bool
    decreases n,
{
    &&& !is_modifier_node(n.kind)
    &&& forall|i: int|
        0 <= i < n.children.len() ==> free_of_modifier_nodes(#[trigger] n.children[i])
}

pub open spec fn all_free_of_modifier_nodes(s: Seq<NodeModel>) -> bool {
    forall|i: int| 0 <= i < s.len() ==> free_of_modifier_nodes(#[trigger] s[i])
}

/// Every `if`/`unless`/`while`/`until` of the stream follows other code on
/// its line (the modifier form).
pub open spec fn only_modifier_forms(toks: Seq<Token>) -> bool {
    forall|i: int|
        0 <= i < toks.len() && is_modifier_token(#[trigger] toks[i].kind) ==> !at_statement_start(
            toks,
            i,
        )
}

proof fn lemma_level_free(toks: Seq<Token>, i: int)
    requires
        only_modifier_forms(toks),
    ensures
        all_free_of_modifier_nodes(level_spec(toks, i).0),
    decreases toks.len() - i, 3int,
{
    if 0 <= i < toks.len() && !(toks[i].kind is End) && !(toks[i].kind is Eof) {
        let (item, j) = item_spec(toks, i);
        lemma_item_free(toks, i);
        if i < j <= toks.len() {
            lemma_level_free(toks, j);
            let (rest, k) = level_spec(toks, j);
            match item {
                Some(n) => {
                    let all = seq![n] + rest;
                    assert forall|x: int| 0 <= x < all.len() implies free_of_modifier_nodes(
                        #[trigger] all[x],
                    ) by {
                        if x > 0 {
                            assert(all[x] == rest[x - 1]);
                        }
                    }
                },
                None => {},
            }
        }
    }
}

proof fn lemma_item_free(toks: Seq<Token>, i: int)
    requires
        only_modifier_forms(toks),
    ensures
        item_spec(toks, i).0 matches Some(n) ==> free_of_modifier_nodes(n),
    decreases toks.len() - i, 2int,
{
    if 0 <= i < toks.len() {
        match toks[i].kind {
            TokenKind::Def => lemma_block_free(toks, i, NodeKind::Method, true),
            TokenKind::Class => lemma_block_free(toks, i, NodeKind::Class, true),
            TokenKind::Module => lemma_block_free(toks, i, NodeKind::Module, true),
            TokenKind::Begin => lemma_block_free(toks, i, NodeKind::Begin, false),
            TokenKind::Case => lemma_block_free(toks, i, NodeKind::Case, false),
            TokenKind::Do => lemma_block_free(toks, i, NodeKind::Do, false),
            TokenKind::For => lemma_block_free(toks, i, NodeKind::For, false),
            TokenKind::If | TokenKind::Unless | TokenKind::While | TokenKind::Until => {
                assert(is_modifier_token(toks[i].kind));
                assert(!at_statement_start(toks, i));
            },
            _ => {},
        }
    }
}

proof fn lemma_block_free(toks: Seq<Token>, i: int, kind: NodeKind, named: bool)
    requires
        only_modifier_forms(toks),
        !is_modifier_node(kind),
    ensures
        free_of_modifier_nodes(block_spec(toks, i, kind, named).0),
    decreases toks.len() - i, 0int,
{
    if 0 <= i < toks.len() {
        lemma_body_free(toks, i + 1);
    }
}

proof fn lemma_body_free(toks: Seq<Token>, i: int)
    requires
        only_modifier_forms(toks),
    ensures
        all_free_of_modifier_nodes(body_spec(toks, i).0),
    decreases toks.len() - i, 4int,
{
    lemma_level_free(toks, i);
}

/// Postfix forms are ignored: where every `if`, `unless`, `while` and
/// `until` follows other code on its line, the tree holds no node of those
/// kinds at any depth.
pub proof fn law_modifier_forms_make_no_nodes(toks: Seq<Token>)
    requires
        only_modifier_forms(toks),
    ensures
        all_free_of_modifier_nodes(build_spec(toks)),
{
    lemma_level_free(toks, 0);
}

// ---------------------------------------------------------------------------
// What each token opens
// ---------------------------------------------------------------------------

/// The kind of node that a keyword opens, if it opens one.
pub open spec fn opened_kind(k: TokenKind) -> Option<NodeKind> {
    match k {
        TokenKind::Def => Some(NodeKind::Method),
        TokenKind::Class => Some(NodeKind::Class),
        TokenKind::Module => Some(NodeKind::Module),
        TokenKind::Begin => Some(NodeKind::Begin),
        TokenKind::Case => Some(NodeKind::Case),
        TokenKind::Do => Some(NodeKind::Do),
        TokenKind::For => Some(NodeKind::For),
        TokenKind::If => Some(NodeKind::If),
        TokenKind::Unless => Some(NodeKind::Unless),
        TokenKind::While => Some(NodeKind::While),
        TokenKind::Until => Some(NodeKind::Until),
        _ => None,
    }
}

/// `def`, `class` and `module` name what they open.
pub open spec fn opens_named(k: TokenKind) -> bool {
    k is Def || k is Class || k is Module
}

proof fn lemma_level_advances(toks: Seq<Token>, i: int)
    requires
        0 <= i,
    ensures
        i <= level_spec(toks, i).1,
    decreases toks.len() - i, 3int,
{
    if i < toks.len() && !(toks[i].kind is End) && !(toks[i].kind is Eof) {
        lemma_item_advances(toks, i);
        let j = item_spec(toks, i).1;
        if i < j <= toks.len() {
            lemma_level_advances(toks, j);
        }
    }
}

proof fn lemma_item_advances(toks: Seq<Token>, i: int)
    requires
        0 <= i,
    ensures
        i < item_spec(toks, i).1,
    decreases toks.len() - i, 2int,
{
    if i < toks.len() {
        let k = toks[i].kind;
        if opened_kind(k) is Some {
            lemma_level_advances(toks, i + 1);
        }
    }
}

/// What one token contributes to its level. A block opener (`def`, `class`,
/// `module`, `begin`, `case`, `do`, `for`, and `if`/`unless`/`while`/`until`
/// at the start of a statement) makes a node of its kind that starts at its
/// line, whose children are the body after it up to the matching `end`,
/// which ends at that `end`'s line, and after which parsing of its level
/// goes on past that `end`, so that the `end` closes this node and no
/// enclosing one; `def`/`class`/`module` nodes carry the name that follows.
/// An `if`/`unless`/`while`/`until` after other code on its line, and any
/// other token but `end` and end of input, makes no node and is stepped
/// over. At an `end` or at end of input the level stops, with no node.
pub proof fn law_token_contribution(toks: Seq<Token>, i: int)
    requires
        0 <= i < toks.len(),
    ensures
        opened_kind(toks[i].kind) is Some && (!is_modifier_token(toks[i].kind)
            || at_statement_start(toks, i)) ==> {
            let (item, next) = item_spec(toks, i);
            let (children, end) = level_spec(toks, i + 1);
            &&& item matches Some(n) && {
                &&& n.kind == opened_kind(toks[i].kind).unwrap()
                &&& n.start_line == toks[i].line
                &&& n.children == children
                &&& n.name == if opens_named(toks[i].kind) {
                    Some(name_from(toks, i + 1))
                } else {
                    None
                }
                &&& end < toks.len() && toks[end].kind is End ==> n.end_line == toks[end].line
                    && next == end + 1
                &&& end < toks.len() && !(toks[end].kind is End) ==> n.end_line
                    == toks[end].line && next == end
                &&& end >= toks.len() ==> n.end_line == toks[toks.len() - 1].line && next
                    == end
                &&& next <= toks.len() ==> level_spec(toks, i) == (
                    seq![n] + level_spec(toks, next).0,
                    level_spec(toks, next).1,
                )
            }
        },
        is_modifier_token(toks[i].kind) && !at_statement_start(toks, i) ==> item_spec(toks, i)
            == (None::<NodeModel>, i + 1),
        opened_kind(toks[i].kind) is None ==> item_spec(toks, i) == (None::<NodeModel>, i + 1),
        !(toks[i].kind is End) && !(toks[i].kind is Eof) && item_spec(toks, i).0 is None
            ==> level_spec(toks, i) == level_spec(toks, i + 1),
        toks[i].kind is End || toks[i].kind is Eof ==> level_spec(toks, i) == (
            Seq::<NodeModel>::empty(),
            i,
        ),
{
    let k = toks[i].kind;
    if opened_kind(k) is Some && (!is_modifier_token(k) || at_statement_start(toks, i)) {
        let kind = opened_kind(k).unwrap();
        let named = opens_named(k);
        assert(item_spec(toks, i) == {
            let (n, j) = block_spec(toks, i, kind, named);
            (Some(n), j)
        });
        lemma_level_advances(toks, i + 1);
    }
}

// ---------------------------------------------------------------------------
// Line nesting
// ---------------------------------------------------------------------------

/// The tokens come in line order.
#[verifier::opaque]
pub open spec fn lines_ordered(toks: Seq<Token>) -> bool {
    forall|a: int, b: int| 0 <= a <= b < toks.len() ==> #[trigger] toks[a].line <= #[trigger] toks[b].line
}

/// The line of the token at `j`; past the end, the line of the last token
/// (1 for no tokens).
pub open spec fn line_at(toks: Seq<Token>, j: int) -> usize {
    if 0 <= j < toks.len() {
        toks[j].line
    } else if toks.len() > 0 {
        toks[toks.len() - 1].line
    } else {
        1
    }
}

/// Siblings follow one another: each ends no later than any later one
/// starts.
pub open spec fn siblings_in_order(s: Seq<NodeModel>) -> bool {
    forall|x: int, y: int|
        0 <= x < y < s.len() ==> (#[trigger] s[x]).end_line <= (#[trigger] s[y]).start_line
}

/// A node starts no later than it ends, its children lie within its lines
/// and follow one another, and so on at every depth.
#[verifier::opaque]
pub open spec fn lines_nest(n: NodeModel) -> bool
    decreases n,
{
    &&& n.start_line <= n.end_line
    &&& siblings_in_order(n.children)
    &&& forall|i: int|
        0 <= i < n.children.len() ==> {
            &&& lines_nest(#[trigger] n.children[i])
            &&& n.start_line <= n.children[i].start_line
            &&& n.children[i].end_line <= n.end_line
        }
}

/// The nodes of one level nest, follow one another, and lie within the
/// lines `from` .. `to`.
pub open spec fn level_nests(s: Seq<NodeModel>, from: usize, to: usize) -> bool {
    &&& siblings_in_order(s)
    &&& forall|x: int|
        0 <= x < s.len() ==> {
            &&& lines_nest(#[trigger] s[x])
            &&& from <= s[x].start_line
            &&& s[x].end_line <= to
        }
}

proof fn lemma_line_at_monotone(toks: Seq<Token>, a: int, b: int)
    requires
        lines_ordered(toks),
        0 <= a <= b,
    ensures
        line_at(toks, a) <= line_at(toks, b),
{
    reveal(lines_ordered);
    if b < toks.len() {
        assert(toks[a].line <= toks[b].line);
    } else if a < toks.len() {
        assert(toks[a].line <= toks[toks.len() - 1].line);
    }
}

proof fn lemma_level_nest(toks: Seq<Token>, i: int)
    requires
        lines_ordered(toks),
        0 <= i <= toks.len(),
    ensures
        i <= level_spec(toks, i).1 <= toks.len(),
        level_nests(level_spec(toks, i).0, line_at(toks, i), line_at(toks, level_spec(toks, i).1)),
    decreases toks.len() - i, 3int,
{
    let (ns, k) = level_spec(toks, i);
    if i < toks.len() && !(toks[i].kind is End) && !(toks[i].kind is Eof) {
        let (item, j) = item_spec(toks, i);
        lemma_item_nest(toks, i);
        lemma_level_nest(toks, j);
        let (rest, k2) = level_spec(toks, j);
        lemma_line_at_monotone(toks, i, j);
        lemma_line_at_monotone(toks, j, k2);
        match item {
            Some(n) => {
                assert(ns =~= seq![n] + rest);
                assert forall|x: int, y: int| 0 <= x < y < ns.len() implies (
                #[trigger] ns[x]).end_line <= (#[trigger] ns[y]).start_line by {
                    assert(ns[y] == rest[y - 1]);
                    if x > 0 {
                        assert(ns[x] == rest[x - 1]);
                    }
                }
                assert forall|x: int| 0 <= x < ns.len() implies {
                    &&& lines_nest(#[trigger] ns[x])
                    &&& line_at(toks, i) <= ns[x].start_line
                    &&& ns[x].end_line <= line_at(toks, k)
                } by {
                    if x > 0 {
                        assert(ns[x] == rest[x - 1]);
                    }
                }
            },
            None => {},
        }
    }
}

proof fn lemma_item_nest(toks: Seq<Token>, i: int)
    requires
        lines_ordered(toks),
        0 <= i < toks.len(),
    ensures
        i < item_spec(toks, i).1 <= toks.len(),
        item_spec(toks, i).0 matches Some(n) ==> lines_nest(n) && n.start_line == line_at(toks, i)
            && n.end_line <= line_at(toks, item_spec(toks, i).1),
    decreases toks.len() - i, 2int,
{
    match toks[i].kind {
        TokenKind::Def => lemma_block_nest(toks, i, NodeKind::Method, true),
        TokenKind::Class => lemma_block_nest(toks, i, NodeKind::Class, true),
        TokenKind::Module => lemma_block_nest(toks, i, NodeKind::Module, true),
        TokenKind::Begin => lemma_block_nest(toks, i, NodeKind::Begin, false),
        TokenKind::Case => lemma_block_nest(toks, i, NodeKind::Case, false),
        TokenKind::Do => lemma_block_nest(toks, i, NodeKind::Do, false),
        TokenKind::For => lemma_block_nest(toks, i, NodeKind::For, false),
        TokenKind::If => lemma_block_nest(toks, i, NodeKind::If, false),
        TokenKind::Unless => lemma_block_nest(toks, i, NodeKind::Unless, false),
        TokenKind::While => lemma_block_nest(toks, i, NodeKind::While, false),
        TokenKind::Until => lemma_block_nest(toks, i, NodeKind::Until, false),
        _ => {},
    }
}

proof fn lemma_block_nest(toks: Seq<Token>, i: int, kind: NodeKind, named: bool)
    requires
        lines_ordered(toks),
        0 <= i < toks.len(),
    ensures
        i < block_spec(toks, i, kind, named).1 <= toks.len(),
        lines_nest(block_spec(toks, i, kind, named).0),
        block_spec(toks, i, kind, named).0.start_line == line_at(toks, i),
        block_spec(toks, i, kind, named).0.end_line <= line_at(
            toks,
            block_spec(toks, i, kind, named).1,
        ),
    decreases toks.len() - i, 0int,
{
    lemma_body_nest(toks, i + 1);
    let (children, end_line, j) = body_spec(toks, i + 1);
    let (ch, k) = level_spec(toks, i + 1);
    lemma_line_at_monotone(toks, i, i + 1);
    lemma_line_at_monotone(toks, i + 1, k);
    lemma_line_at_monotone(toks, k, j);
    let n = block_spec(toks, i, kind, named).0;
    assert(n.children == ch);
    reveal(lines_nest);
    assert forall|x: int| 0 <= x < n.children.len() implies {
        &&& lines_nest(#[trigger] n.children[x])
        &&& n.start_line <= n.children[x].start_line
        &&& n.children[x].end_line <= n.end_line
    } by {
        assert(n.children[x] == ch[x]);
    }
}

proof fn lemma_body_nest(toks: Seq<Token>, i: int)
    requires
        lines_ordered(toks),
        0 <= i <= toks.len(),
    ensures
        i <= level_spec(toks, i).1,
        level_spec(toks, i).1 <= body_spec(toks, i).2 <= toks.len(),
        body_spec(toks, i).0 == level_spec(toks, i).0,
        body_spec(toks, i).1 == line_at(toks, level_spec(toks, i).1),
        level_nests(body_spec(toks, i).0, line_at(toks, i), body_spec(toks, i).1),
    decreases toks.len() - i, 4int,
{
    lemma_level_nest(toks, i);
}

/// Given tokens in line order, the nodes that one level of parsing finds
/// from any index (what `parse_level` appends, by its contract) nest: each
/// starts no later than it ends, its children lie within its lines, siblings
/// follow one another at every depth, and all lie between the line of the
/// token where parsing starts and that of the token where it stops.
pub proof fn law_level_lines_nest(toks: Seq<Token>, i: int)
    requires
        lines_ordered(toks),
        0 <= i <= toks.len(),
    ensures
        i <= level_spec(toks, i).1 <= toks.len(),
        level_nests(level_spec(toks, i).0, line_at(toks, i), line_at(toks, level_spec(toks, i).1)),
{
    lemma_level_nest(toks, i);
}

/// Given tokens in line order, the lines of the tree nest: every node starts
/// no later than it ends, children lie within their parent's lines, and
/// siblings (at the top and at every depth) follow one another.
pub proof fn law_tree_lines_nest(toks: Seq<Token>)
    requires
        lines_ordered(toks),
    ensures
        siblings_in_order(build_spec(toks)),
        forall|x: int| 0 <= x < build_spec(toks).len() ==> lines_nest(#[trigger] build_spec(toks)[x]),
{
    lemma_level_nest(toks, 0);
}

// ---------------------------------------------------------------------------
// Tree builder
// ---------------------------------------------------------------------------

/// Builds the list of top-level [`Node`]s from a flat token slice.
pub struct TreeBuilder;

impl TreeBuilder {
    pub fn build(tokens: &[Token]) -> (roots: Vec<Node>)
        ensures
            nodes_model(roots@) == build_spec(tokens@),
    {
        let mut idx: usize = 0;
        let mut roots: Vec<Node> = Vec::new();
        Self::parse_level(tokens, &mut idx, &mut roots, 0);
        proof {
            assert(roots@ =~= Seq::<Node>::empty() + roots@);
            assert(nodes_model(Seq::<Node>::empty()) =~= seq![]);
        }
        roots
    }

    /// Parses tokens at one nesting level, appending nodes to `out`, and
    /// stops at an `end` (left for the caller), at `Eof`, or at the end of
    /// the input.
    fn parse_level(tokens: &[Token], idx: &mut usize, out: &mut Vec<Node>, depth: usize)
        requires
            *old(idx) <= tokens@.len(),
        ensures
            *old(idx) <= *final(idx) <= tokens@.len(),
            *final(idx) == level_spec(tokens@, *old(idx) as int).1,
            nodes_model(final(out)@) == nodes_model(old(out)@) + level_spec(
                tokens@,
                *old(idx) as int,
            ).0,
        decreases tokens@.len() - *old(idx), 3int,
    {
        let ghost toks = tokens@;
        let ghost i0 = *idx as int;
        let ghost out0 = nodes_model(out@);
        while *idx < tokens.len()
            invariant
                toks == tokens@,
                i0 == *old(idx) as int,
                out0 == nodes_model(old(out)@),
                i0 <= *idx <= toks.len(),
                level_spec(toks, *idx as int).1 == level_spec(toks, i0).1,
                out0 + level_spec(toks, i0).0 == nodes_model(out@) + level_spec(
                    toks,
                    *idx as int,
                ).0,
            decreases toks.len() - *idx,
        {
            let ghost i = *idx as int;
            let ghost before = out@;
            let kind = tokens[*idx].kind;
            match kind {
                TokenKind::End => {
                    proof {
                        assert(level_spec(toks, i).0 =~= seq![]);
                    }
                    return ;
                },
                TokenKind::Eof => {
                    proof {
                        assert(level_spec(toks, i).0 =~= seq![]);
                    }
                    return ;
                },
                TokenKind::Def => {
                    let node = Self::parse_def(tokens, idx);
                    out.push(node);
                },
                TokenKind::Class => {
                    let node = Self::parse_keyed(tokens, idx, NodeKind::Class);
                    out.push(node);
                },
                TokenKind::Module => {
                    let node = Self::parse_keyed(tokens, idx, NodeKind::Module);
                    out.push(node);
                },
                TokenKind::Begin => {
                    let node = Self::parse_anonymous(tokens, idx, NodeKind::Begin);
                    out.push(node);
                },
                TokenKind::Case => {
                    let node = Self::parse_anonymous(tokens, idx, NodeKind::Case);
                    out.push(node);
                },
                TokenKind::Do => {
                    let node = Self::parse_anonymous(tokens, idx, NodeKind::Do);
                    out.push(node);
                },
                TokenKind::If => {
                    if let Some(node) = Self::parse_conditional(tokens, idx, NodeKind::If) {
                        out.push(node);
                    }
                },
                TokenKind::Unless => {
                    if let Some(node) = Self::parse_conditional(tokens, idx, NodeKind::Unless) {
                        out.push(node);
                    }
                },
                TokenKind::While => {
                    if let Some(node) = Self::parse_loop(tokens, idx, NodeKind::While) {
                        out.push(node);
                    }
                },
                TokenKind::Until => {
                    if let Some(node) = Self::parse_loop(tokens, idx, NodeKind::Until) {
                        out.push(node);
                    }
                },
                TokenKind::For => {
                    // `for` always takes a block form in Ruby.
                    let node = Self::parse_anonymous(tokens, idx, NodeKind::For);
                    out.push(node);
                },
                _ => {
                    *idx = *idx + 1;
                },
            }
            proof {
                let (item, j) = item_spec(toks, i);
                assert(j == *idx as int);
                let (rest, k) = level_spec(toks, j);
                match item {
                    Some(n) => {
                        lemma_nodes_model_push(before, out@.last());
                        assert(out@ =~= before.push(out@.last()));
                        assert(level_spec(toks, i).0 =~= seq![n] + rest);
                        assert(nodes_model(out@) =~= nodes_model(before).push(n));
                        assert(nodes_model(before) + level_spec(toks, i).0 =~= nodes_model(out@)
                            + rest);
                    },
                    None => {
                        assert(out@ =~= before);
                    },
                }
            }
            let _ = depth;
        }
        proof {
            assert(level_spec(toks, *idx as int).0 =~= seq![]);
        }
    }

    /// Whether the token at `idx` is the first token on its line apart from
    /// whitespace and comments, i.e. it starts a new statement.
    fn is_statement_start(tokens: &[Token], idx: usize) -> (r: bool)
        requires
            idx <= tokens@.len(),
        ensures
            r == at_statement_start(tokens@, idx as int),
    {
        if idx == 0 {
            return true;
        }
        let mut j: usize = idx;
        loop
            invariant
                j <= idx <= tokens@.len(),
                forall|k: int| j <= k < idx ==> is_trivia(#[trigger] tokens@[k].kind),
            decreases j,
        {
            if j == 0 {
                return true;
            }
            j = j - 1;
            match tokens[j].kind {
                TokenKind::Newline => {
                    return true;
                },
                TokenKind::Whitespace => {},
                TokenKind::Comment => {},
                _ => {
                    proof {
                        let jj = j as int;
                        assert forall|m: int| jj < m < idx implies !(
                        #[trigger] tokens@[m].kind is Newline) by {
                            assert(is_trivia(tokens@[m].kind));
                        }
                    }
                    return false;
                },
            }
        }
    }

    /// Parses a `def` (one-liner or multi-line).
    fn parse_def(tokens: &[Token], idx: &mut usize) -> (node: Node)
        requires
            *old(idx) < tokens@.len(),
        ensures
            *old(idx) < *final(idx) <= tokens@.len(),
            (node_model(node), *final(idx) as int) == block_spec(
                tokens@,
                *old(idx) as int,
                NodeKind::Method,
                true,
            ),
        decreases tokens@.len() - *old(idx), 0int,
    {
        let start_line = tokens[*idx].line;
        *idx = *idx + 1;
        let name = Self::next_name(tokens, *idx);
        let mut children: Vec<Node> = Vec::new();
        let end_line = Self::consume_until_end(tokens, idx, &mut children);
        proof {
            assert(nodes_model(Seq::<Node>::empty()) =~= seq![]);
            assert(nodes_model(children@) =~= seq![] + nodes_model(children@));
        }
        Node { kind: NodeKind::Method, start_line, end_line, children, name: Some(name) }
    }

    /// Parses a named block opener (`class`, `module`).
    fn parse_keyed(tokens: &[Token], idx: &mut usize, kind: NodeKind) -> (node: Node)
        requires
            *old(idx) < tokens@.len(),
        ensures
            *old(idx) < *final(idx) <= tokens@.len(),
            (node_model(node), *final(idx) as int) == block_spec(
                tokens@,
                *old(idx) as int,
                kind,
                true,
            ),
        decreases tokens@.len() - *old(idx), 0int,
    {
        let start_line = tokens[*idx].line;
        *idx = *idx + 1;
        let name = Self::next_name(tokens, *idx);
        let mut children: Vec<Node> = Vec::new();
        let end_line = Self::consume_until_end(tokens, idx, &mut children);
        proof {
            assert(nodes_model(Seq::<Node>::empty()) =~= seq![]);
            assert(nodes_model(children@) =~= seq![] + nodes_model(children@));
        }
        Node { kind, start_line, end_line, children, name: Some(name) }
    }

    /// Parses an anonymous block (`begin`, `do`, `case`, `for`).
    fn parse_anonymous(tokens: &[Token], idx: &mut usize, kind: NodeKind) -> (node: Node)
        requires
            *old(idx) < tokens@.len(),
        ensures
            *old(idx) < *final(idx) <= tokens@.len(),
            (node_model(node), *final(idx) as int) == block_spec(
                tokens@,
                *old(idx) as int,
                kind,
                false,
            ),
        decreases tokens@.len() - *old(idx), 0int,
    {
        let start_line = tokens[*idx].line;
        *idx = *idx + 1;
        let mut children: Vec<Node> = Vec::new();
        let end_line = Self::consume_until_end(tokens, idx, &mut children);
        proof {
            assert(nodes_model(Seq::<Node>::empty()) =~= seq![]);
            assert(nodes_model(children@) =~= seq![] + nodes_model(children@));
        }
        Node { kind, start_line, end_line, children, name: None }
    }

    /// Parses `if` / `unless`; `None` for the postfix (modifier) form.
    fn parse_conditional(tokens: &[Token], idx: &mut usize, kind: NodeKind) -> (r: Option<Node>)
        requires
            *old(idx) < tokens@.len(),
        ensures
            *old(idx) < *final(idx) <= tokens@.len(),
            (match r {
                Some(n) => Some(node_model(n)),
                None => None,
            }, *final(idx) as int) == modifier_spec(tokens@, *old(idx) as int, kind),
        decreases tokens@.len() - *old(idx), 1int,
    {
        proof {
            assert(tokens@.len() == tokens.len());
        }
        if !Self::is_statement_start(tokens, *idx) {
            *idx = *idx + 1;
            return None;
        }
        let node = Self::parse_anonymous(tokens, idx, kind);
        Some(node)
    }

    /// Parses `while` / `until`; `None` for the postfix (modifier) form.
    fn parse_loop(tokens: &[Token], idx: &mut usize, kind: NodeKind) -> (r: Option<Node>)
        requires
            *old(idx) < tokens@.len(),
        ensures
            *old(idx) < *final(idx) <= tokens@.len(),
            (match r {
                Some(n) => Some(node_model(n)),
                None => None,
            }, *final(idx) as int) == modifier_spec(tokens@, *old(idx) as int, kind),
        decreases tokens@.len() - *old(idx), 1int,
    {
        proof {
            assert(tokens@.len() == tokens.len());
        }
        if !Self::is_statement_start(tokens, *idx) {
            *idx = *idx + 1;
            return None;
        }
        let node = Self::parse_anonymous(tokens, idx, kind);
        Some(node)
    }

    /// Consumes the body of a block up to and including its matching `end`,
    /// building the child nodes; returns the line of that `end`.
    fn consume_until_end(tokens: &[Token], idx: &mut usize, children: &mut Vec<Node>) -> (r: usize)
        requires
            *old(idx) <= tokens@.len(),
        ensures
            *old(idx) <= *final(idx) <= tokens@.len(),
            nodes_model(final(children)@) == nodes_model(old(children)@) + body_spec(
                tokens@,
                *old(idx) as int,
            ).0,
            r == body_spec(tokens@, *old(idx) as int).1,
            *final(idx) as int == body_spec(tokens@, *old(idx) as int).2,
        decreases tokens@.len() - *old(idx), 4int,
    {
        Self::parse_level(tokens, idx, children, 1);
        if *idx < tokens.len() {
            let end_line = tokens[*idx].line;
            match tokens[*idx].kind {
                TokenKind::End => {
                    *idx = *idx + 1;
                },
                _ => {},
            }
            end_line
        } else {
            if tokens.len() > 0 {
                tokens[tokens.len() - 1].line
            } else {
                1
            }
        }
    }

    /// The text of the first token at or after `from` that is not
    /// whitespace or a newline.
    fn next_name(tokens: &[Token], from: usize) -> (name: String)
        ensures
            name@ == name_from(tokens@, from as int),
    {
        let mut i: usize = from;
        while i < tokens.len()
            invariant
                name_from(tokens@, i as int) == name_from(tokens@, from as int),
            decreases tokens@.len() - i,
        {
            match tokens[i].kind {
                TokenKind::Whitespace => {},
                TokenKind::Newline => {},
                _ => {
                    return tokens[i].text.clone();
                },
            }
            i = i + 1;
        }
        String::from_str("<unknown>")
    }
}

} // verus!
