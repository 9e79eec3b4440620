//! The syntax tree of the shell language, and its mathematical model.

use vstd::prelude::*;

verus! {

/// One piece of a word: literal text, a variable reference, a command
/// substitution `$(..)` or an arithmetic expansion `$((..))`.
#[derive(Debug, Clone, PartialEq)]
pub enum WordPart {
    Literal(String),
    Var(String),
    CmdSub(String),
    Arith(String),
}

/// A word is the concatenation of its parts.
pub type Word = Vec<WordPart>;

/// The kinds of redirection.
#[derive(Debug, Clone, Copy, PartialEq, Eq, Structural)]
pub enum RedirectKind {
    /// `<`
    In,
    /// `>`
    Out,
    /// `>>`
    Append,
    /// `2>`
    ErrOut,
    /// `2>>`
    ErrAppend,
    /// `&>` or `>&`
    Both,
    /// `2>&1`
    DupErrToOut,
    /// `1>&2`
    DupOutToErr,
}

#[derive(Debug, Clone)]
pub struct Redirect {
    pub kind: RedirectKind,
    pub target: Word,
}

#[derive(Debug, Clone)]
pub struct SimpleCommand {
    pub assignments: Vec<(String, Word)>,
    pub words: Vec<Word>,
    pub redirects: Vec<Redirect>,
}

/// How the commands of an and-or list are joined.
#[derive(Debug, Clone, Copy, PartialEq, Eq, Structural)]
pub enum Sep {
    Sequential,
    And,
    Or,
}

#[derive(Debug)]
pub enum Node {
    Simple(SimpleCommand),
    /// The commands, and whether the pipeline's status is negated.
    Pipeline(Vec<Node>, bool),
    List(Vec<(Node, Sep)>),
    If {
        /// (condition, body) for the `if` and each `elif`.
        branches: Vec<(Vec<Node>, Vec<Node>)>,
        else_branch: Option<Vec<Node>>,
    },
    For { var: String, words: Vec<Word>, body: Vec<Node> },
    While { cond: Vec<Node>, body: Vec<Node>, until: bool },
    FunctionDef { name: String, body: Vec<Node> },
    Subshell(Vec<Node>),
    Background(Box<Node>),
    Return(Option<Word>),
    Break,
    Continue,
    Case { word: Word, arms: Vec<(Vec<Word>, Vec<Node>)> },
    Timed(Box<Node>),
}

// ----- the model -----

/// Model of a word part: its kind and its text.
pub enum SpecWordPart {
    Literal(Seq<char>),
    Var(Seq<char>),
    CmdSub(Seq<char>),
    Arith(Seq<char>),
}

/// Model of a word.
pub type SpecWord = Seq<SpecWordPart>;

pub struct SpecRedirect {
    pub kind: RedirectKind,
    pub target: SpecWord,
}

pub struct SpecSimple {
    pub assignments: Seq<(Seq<char>, SpecWord)>,
    pub words: Seq<SpecWord>,
    pub redirects: Seq<SpecRedirect>,
}

/// Model of a syntax tree node.
pub enum SpecNode {
    Simple(SpecSimple),
    Pipeline(Seq<SpecNode>, bool),
    List(Seq<(SpecNode, Sep)>),
    If { branches: Seq<(Seq<SpecNode>, Seq<SpecNode>)>, else_branch: Option<Seq<SpecNode>> },
    For { var: Seq<char>, words: Seq<SpecWord>, body: Seq<SpecNode> },
    While { cond: Seq<SpecNode>, body: Seq<SpecNode>, until: bool },
    FunctionDef { name: Seq<char>, body: Seq<SpecNode> },
    Subshell(Seq<SpecNode>),
    Background(Box<SpecNode>),
    Return(Option<SpecWord>),
    Break,
    Continue,
    Case { word: SpecWord, arms: Seq<(Seq<SpecWord>, Seq<SpecNode>)> },
    Timed(Box<SpecNode>),
}

impl View for WordPart {
    type V = SpecWordPart;

    open spec fn view(&self) -> SpecWordPart {
        match self {
            WordPart::Literal(s) => SpecWordPart::Literal(s@),
            WordPart::Var(s) => SpecWordPart::Var(s@),
            WordPart::CmdSub(s) => SpecWordPart::CmdSub(s@),
            WordPart::Arith(s) => SpecWordPart::Arith(s@),
        }
    }
}

/// Model of a word, from the sequence of its parts.
pub open spec fn word_view(w: Seq<WordPart>) -> SpecWord {
    w.map_values(|p: WordPart| p@)
}

/// Model of a list of words.
pub open spec fn words_view(ws: Seq<Word>) -> Seq<SpecWord> {
    ws.map_values(|w: Word| word_view(w@))
}

impl View for Redirect {
    type V = SpecRedirect;

    open spec fn view(&self) -> SpecRedirect {
        SpecRedirect { kind: self.kind, target: word_view(self.target@) }
    }
}

impl View for SimpleCommand {
    type V = SpecSimple;

    open spec fn view(&self) -> SpecSimple {
        SpecSimple {
            assignments: self.assignments@.map_values(
                |a: (String, Word)| (a.0@, word_view(a.1@)),
            ),
            words: words_view(self.words@),
            redirects: self.redirects@.map_values(|r: Redirect| r@),
        }
    }
}

/// Model of a syntax tree node.
pub open spec fn node_view(n: Node) -> SpecNode
    decreases n,
{
    match n {
        Node::Simple(sc) => SpecNode::Simple(sc@),
        Node::Pipeline(cmds, neg) => SpecNode::Pipeline(
            Seq::new(
                cmds@.len(),
                |i: int|
                    if 0 <= i < cmds@.len() {
                        node_view(cmds@[i])
                    } else {
                        SpecNode::Break
                    },
            ),
            neg,
        ),
        Node::List(items) => SpecNode::List(
            Seq::new(
                items@.len(),
                |i: int|
                    if 0 <= i < items@.len() {
                        (node_view(items@[i].0), items@[i].1)
                    } else {
                        (SpecNode::Break, Sep::Sequential)
                    },
            ),
        ),
        Node::If { branches, else_branch } => SpecNode::If {
            branches: Seq::new(
                branches@.len(),
                |i: int|
                    if 0 <= i < branches@.len() {
                        (
                            Seq::new(
                                branches@[i].0@.len(),
                                |j: int|
                                    if 0 <= j < branches@[i].0@.len() {
                                        node_view(branches@[i].0@[j])
                                    } else {
                                        SpecNode::Break
                                    },
                            ),
                            Seq::new(
                                branches@[i].1@.len(),
                                |j: int|
                                    if 0 <= j < branches@[i].1@.len() {
                                        node_view(branches@[i].1@[j])
                                    } else {
                                        SpecNode::Break
                                    },
                            ),
                        )
                    } else {
                        (Seq::empty(), Seq::empty())
                    },
            ),
            else_branch: match else_branch {
                Some(b) => Some(
                    Seq::new(
                        b@.len(),
                        |j: int|
                            if 0 <= j < b@.len() {
                                node_view(b@[j])
                            } else {
                                SpecNode::Break
                            },
                    ),
                ),
                None => None,
            },
        },
        Node::For { var, words, body } => SpecNode::For {
            var: var@,
            words: words_view(words@),
            body: Seq::new(
                body@.len(),
                |j: int|
                    if 0 <= j < body@.len() {
                        node_view(body@[j])
                    } else {
                        SpecNode::Break
                    },
            ),
        },
        Node::While { cond, body, until } => SpecNode::While {
            cond: Seq::new(
                cond@.len(),
                |j: int|
                    if 0 <= j < cond@.len() {
                        node_view(cond@[j])
                    } else {
                        SpecNode::Break
                    },
            ),
            body: Seq::new(
                body@.len(),
                |j: int|
                    if 0 <= j < body@.len() {
                        node_view(body@[j])
                    } else {
                        SpecNode::Break
                    },
            ),
            until,
        },
        Node::FunctionDef { name, body } => SpecNode::FunctionDef {
            name: name@,
            body: Seq::new(
                body@.len(),
                |j: int|
                    if 0 <= j < body@.len() {
                        node_view(body@[j])
                    } else {
                        SpecNode::Break
                    },
            ),
        },
        Node::Subshell(body) => SpecNode::Subshell(
            Seq::new(
                body@.len(),
                |j: int|
                    if 0 <= j < body@.len() {
                        node_view(body@[j])
                    } else {
                        SpecNode::Break
                    },
            ),
        ),
        Node::Background(inner) => SpecNode::Background(Box::new(node_view(*inner))),
        Node::Return(w) => SpecNode::Return(
            match w {
                Some(w) => Some(word_view(w@)),
                None => None,
            },
        ),
        Node::Break => SpecNode::Break,
        Node::Continue => SpecNode::Continue,
        Node::Case { word, arms } => SpecNode::Case {
            word: word_view(word@),
            arms: Seq::new(
                arms@.len(),
                |i: int|
                    if 0 <= i < arms@.len() {
                        (
                            words_view(arms@[i].0@),
                            Seq::new(
                                arms@[i].1@.len(),
                                |j: int|
                                    if 0 <= j < arms@[i].1@.len() {
                                        node_view(arms@[i].1@[j])
                                    } else {
                                        SpecNode::Break
                                    },
                            ),
                        )
                    } else {
                        (Seq::empty(), Seq::empty())
                    },
            ),
        },
        Node::Timed(inner) => SpecNode::Timed(Box::new(node_view(*inner))),
    }
}

/// Model of a sequence of nodes.
pub open spec fn nodes_view(ns: Seq<Node>) -> Seq<SpecNode> {
    ns.map_values(|n: Node| node_view(n))
}

impl View for Node {
    type V = SpecNode;

    open spec fn view(&self) -> SpecNode {
        node_view(*self)
    }
}

/// A copy of a word.
pub fn copy_word(w: &Word) -> (r: Word)
    ensures
        word_view(r@) == word_view(w@),
{
    let mut r: Word = Vec::new();
    let mut i: usize = 0;
    while i < w.len()
        invariant
            i <= w@.len(),
            word_view(r@) == word_view(w@).subrange(0, i as int),
        decreases w.len() - i,
    {
        let p = match &w[i] {
            WordPart::Literal(s) => WordPart::Literal(s.clone()),
            WordPart::Var(s) => WordPart::Var(s.clone()),
            WordPart::CmdSub(s) => WordPart::CmdSub(s.clone()),
            WordPart::Arith(s) => WordPart::Arith(s.clone()),
        };
        assert(p@ == w@[i as int]@);
        let ghost before = r@;
        r.push(p);
        assert(r@ =~= before.push(p));
        assert(word_view(r@) =~= word_view(before).push(p@));
        i = i + 1;
        assert(word_view(r@) =~= word_view(w@).subrange(0, i as int));
    }
    assert(word_view(w@).subrange(0, w@.len() as int) =~= word_view(w@));
    r
}

/// A copy of a list of words.
pub fn copy_words(ws: &Vec<Word>) -> (r: Vec<Word>)
    ensures
        words_view(r@) == words_view(ws@),
{
    let mut r: Vec<Word> = Vec::new();
    let mut i: usize = 0;
    while i < ws.len()
        invariant
            i <= ws@.len(),
            words_view(r@) == words_view(ws@).subrange(0, i as int),
        decreases ws.len() - i,
    {
        let w = copy_word(&ws[i]);
        let ghost before = r@;
        r.push(w);
        assert(r@ =~= before.push(w));
        assert(words_view(r@) =~= words_view(before).push(word_view(w@)));
        i = i + 1;
        assert(words_view(r@) =~= words_view(ws@).subrange(0, i as int));
    }
    assert(words_view(ws@).subrange(0, ws@.len() as int) =~= words_view(ws@));
    r
}

/// A copy of a simple command.
pub fn copy_simple(sc: &SimpleCommand) -> (r: SimpleCommand)
    ensures
        r@ == sc@,
{
    let mut assignments: Vec<(String, Word)> = Vec::new();
    let mut i: usize = 0;
    while i < sc.assignments.len()
        invariant
            i <= sc.assignments@.len(),
            assignments@.len() == i,
            forall|j: int| 0 <= j < i ==> (#[trigger] assignments@[j]).0@ == sc.assignments@[j].0@
                && word_view(assignments@[j].1@) == word_view(sc.assignments@[j].1@),
        decreases sc.assignments.len() - i,
    {
        let a = (sc.assignments[i].0.clone(), copy_word(&sc.assignments[i].1));
        assignments.push(a);
        i = i + 1;
    }
    let mut redirects: Vec<Redirect> = Vec::new();
    let mut k: usize = 0;
    while k < sc.redirects.len()
        invariant
            k <= sc.redirects@.len(),
            redirects@.len() == k,
            forall|j: int| 0 <= j < k ==> (#[trigger] redirects@[j])@ == sc.redirects@[j]@,
        decreases sc.redirects.len() - k,
    {
        let r = Redirect { kind: sc.redirects[k].kind, target: copy_word(&sc.redirects[k].target) };
        redirects.push(r);
        k = k + 1;
    }
    let r = SimpleCommand { assignments, words: copy_words(&sc.words), redirects };
    assert(r@.assignments =~= sc@.assignments);
    assert(r@.redirects =~= sc@.redirects);
    r
}

/// Model of a list of statements, as `node_view` builds it.
pub open spec fn list_view(v: Seq<Node>) -> Seq<SpecNode> {
    Seq::new(v.len(), |j: int| if 0 <= j < v.len() { node_view(v[j]) } else { SpecNode::Break })
}

/// A copy of a list of statements.
pub fn copy_nodes(v: &Vec<Node>) -> (r: Vec<Node>)
    ensures
        r@.len() == v@.len(),
        forall|j: int| 0 <= j < v@.len() ==> node_view(#[trigger] r@[j]) == node_view(v@[j]),
        list_view(r@) == list_view(v@),
    decreases v@,
{
    let mut r: Vec<Node> = Vec::new();
    let mut i: usize = 0;
    while i < v.len()
        invariant
            i <= v@.len(),
            r@.len() == i,
            forall|j: int| 0 <= j < i ==> node_view(#[trigger] r@[j]) == node_view(v@[j]),
        decreases v.len() - i,
    {
        assert(decreases_to!(v@ => v@[i as int]));
        let n = copy_node(&v[i]);
        r.push(n);
        i = i + 1;
    }
    assert(list_view(r@) =~= list_view(v@));
    r
}

/// A copy of the items of an and-or list.
fn copy_items(v: &Vec<(Node, Sep)>) -> (r: Vec<(Node, Sep)>)
    ensures
        r@.len() == v@.len(),
        forall|j: int| 0 <= j < v@.len() ==> node_view((#[trigger] r@[j]).0) == node_view(v@[j].0) && r@[j].1 == v@[j].1,
    decreases v@,
{
    let mut r: Vec<(Node, Sep)> = Vec::new();
    let mut i: usize = 0;
    while i < v.len()
        invariant
            i <= v@.len(),
            r@.len() == i,
            forall|j: int| 0 <= j < i ==> node_view((#[trigger] r@[j]).0) == node_view(v@[j].0) && r@[j].1 == v@[j].1,
        decreases v.len() - i,
    {
        assert(decreases_to!(v@ => v@[i as int]));
        let n = copy_node(&v[i].0);
        r.push((n, v[i].1));
        i = i + 1;
    }
    r
}

/// A copy of the branches of an `if`.
fn copy_branches(v: &Vec<(Vec<Node>, Vec<Node>)>) -> (r: Vec<(Vec<Node>, Vec<Node>)>)
    ensures
        r@.len() == v@.len(),
        forall|j: int| 0 <= j < v@.len() ==> list_view((#[trigger] r@[j]).0@) == list_view(v@[j].0@) && list_view(r@[j].1@) == list_view(v@[j].1@),
    decreases v@,
{
    let mut r: Vec<(Vec<Node>, Vec<Node>)> = Vec::new();
    let mut i: usize = 0;
    while i < v.len()
        invariant
            i <= v@.len(),
            r@.len() == i,
            forall|j: int| 0 <= j < i ==> list_view((#[trigger] r@[j]).0@) == list_view(v@[j].0@) && list_view(r@[j].1@) == list_view(v@[j].1@),
        decreases v.len() - i,
    {
        assert(decreases_to!(v@ => v@[i as int]));
        let a = copy_nodes(&v[i].0);
        let b = copy_nodes(&v[i].1);
        r.push((a, b));
        i = i + 1;
    }
    r
}

/// A copy of the arms of a `case`.
fn copy_arms(v: &Vec<(Vec<Word>, Vec<Node>)>) -> (r: Vec<(Vec<Word>, Vec<Node>)>)
    ensures
        r@.len() == v@.len(),
        forall|j: int| 0 <= j < v@.len() ==> words_view((#[trigger] r@[j]).0@) == words_view(v@[j].0@) && list_view(r@[j].1@) == list_view(v@[j].1@),
    decreases v@,
{
    let mut r: Vec<(Vec<Word>, Vec<Node>)> = Vec::new();
    let mut i: usize = 0;
    while i < v.len()
        invariant
            i <= v@.len(),
            r@.len() == i,
            forall|j: int| 0 <= j < i ==> words_view((#[trigger] r@[j]).0@) == words_view(v@[j].0@) && list_view(r@[j].1@) == list_view(v@[j].1@),
        decreases v.len() - i,
    {
        assert(decreases_to!(v@ => v@[i as int]));
        let a = copy_words(&v[i].0);
        let b = copy_nodes(&v[i].1);
        r.push((a, b));
        i = i + 1;
    }
    r
}

/// A copy of a syntax tree.
pub fn copy_node(n: &Node) -> (r: Node)
    ensures
        node_view(r) == node_view(*n),
    decreases *n,
{
    match n {
        Node::Simple(sc) => {
            let c = copy_simple(sc);
            Node::Simple(c)
        },
        Node::Pipeline(cmds, neg) => {
            let c = copy_nodes(cmds);
            let r = Node::Pipeline(c, *neg);
            assert(node_view(r)->Pipeline_0 =~= node_view(*n)->Pipeline_0);
            r
        },
        Node::List(items) => {
            let c = copy_items(items);
            let r = Node::List(c);
            assert(node_view(r)->List_0 =~= node_view(*n)->List_0);
            r
        },
        Node::If { branches, else_branch } => {
            let b = copy_branches(branches);
            let e = match else_branch {
                Some(x) => Some(copy_nodes(x)),
                None => None,
            };
            let r = Node::If { branches: b, else_branch: e };
            proof {
                let x = node_view(r);
                let y = node_view(*n);
                assert forall|i: int| 0 <= i < b@.len() implies x->branches[i] == y->branches[i] by {
                    assert(x->branches[i].0 =~= list_view(b@[i].0@));
                    assert(y->branches[i].0 =~= list_view(branches@[i].0@));
                    assert(x->branches[i].1 =~= list_view(b@[i].1@));
                    assert(y->branches[i].1 =~= list_view(branches@[i].1@));
                }
                assert(x->branches =~= y->branches);
                match else_branch {
                    Some(eb) => {
                        assert(x->else_branch->0 =~= list_view(e->0@));
                        assert(y->else_branch->0 =~= list_view(eb@));
                    },
                    None => {},
                }
            }
            r
        },
        Node::For { var, words, body } => {
            let r = Node::For { var: var.clone(), words: copy_words(words), body: copy_nodes(body) };
            assert(node_view(r)->For_body =~= node_view(*n)->For_body);
            r
        },
        Node::While { cond, body, until } => {
            let r = Node::While { cond: copy_nodes(cond), body: copy_nodes(body), until: *until };
            assert(node_view(r)->While_body =~= node_view(*n)->While_body);
            assert(node_view(r)->cond =~= node_view(*n)->cond);
            r
        },
        Node::FunctionDef { name, body } => {
            let r = Node::FunctionDef { name: name.clone(), body: copy_nodes(body) };
            assert(node_view(r)->FunctionDef_body =~= node_view(*n)->FunctionDef_body);
            r
        },
        Node::Subshell(body) => {
            let r = Node::Subshell(copy_nodes(body));
            assert(node_view(r)->Subshell_0 =~= node_view(*n)->Subshell_0);
            r
        },
        Node::Background(inner) => {
            let c = copy_node(inner);
            Node::Background(Box::new(c))
        },
        Node::Return(w) => match w {
            Some(x) => Node::Return(Some(copy_word(x))),
            None => Node::Return(None),
        },
        Node::Break => Node::Break,
        Node::Continue => Node::Continue,
        Node::Case { word, arms } => {
            let a = copy_arms(arms);
            let r = Node::Case { word: copy_word(word), arms: a };
            proof {
                let x = node_view(r);
                let y = node_view(*n);
                assert forall|i: int| 0 <= i < a@.len() implies x->arms[i] == y->arms[i] by {
                    assert(x->arms[i].1 =~= list_view(a@[i].1@));
                    assert(y->arms[i].1 =~= list_view(arms@[i].1@));
                }
                assert(x->arms =~= y->arms);
            }
            r
        },
        Node::Timed(inner) => {
            let c = copy_node(inner);
            Node::Timed(Box::new(c))
        },
    }
}

} // verus!
