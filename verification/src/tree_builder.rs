//! Expression tree builder: grouping, implicit-call detection, unary
//! wrapping and tier-by-tier precedence folding over a flat token list.

use vstd::prelude::*;
use vstd::string::*;
use crate::tokens::Token;

verus! {

/// Errors of the structural stage.
#[derive(Debug, PartialEq, Eq, Structural, Clone, Copy)]
pub enum ExpressionBuildError {
    /// A `(` is never closed, or a bracket level is otherwise unbalanced.
    UnbalancedParenthesis,
    /// A `[` is never closed.
    UnbalancedBracket,
}

/// A node of the (partially built) expression tree: either a single token
/// leaf or an ordered group of child nodes.  The same type carries the flat
/// leaf sequence, the bracket-resolved tree and the fully folded tree.
#[derive(Debug, PartialEq)]
pub enum Node {
    Tkn(Token),
    Exp(Vec<Node>),
}

/// The mathematical shape of a node: token text or child list.
pub enum NodeV {
    Tkn(Seq<char>),
    Exp(Seq<NodeV>),
}

/// The shape of a node.
pub open spec fn node_view(n: Node) -> NodeV
    decreases n,
{
    match n {
        Node::Tkn(t) => NodeV::Tkn(t@),
        Node::Exp(children) => NodeV::Exp(nodes_view(children@)),
    }
}

/// The shapes of a node list.
pub open spec fn nodes_view(s: Seq<Node>) -> Seq<NodeV>
    decreases s,
{
    if s.len() == 0 {
        Seq::<NodeV>::empty()
    } else {
        nodes_view(s.drop_last()).push(node_view(s.last()))
    }
}

/// A non-empty node list views as the view of its front part followed by the
/// view of its last node.
pub proof fn lemma_nodes_view_unsnoc(s: Seq<Node>)
    requires
        s.len() > 0,
    ensures
        nodes_view(s) == nodes_view(s.drop_last()).push(node_view(s.last())),
{
}

pub proof fn lemma_nodes_view(s: Seq<Node>)
    ensures
        nodes_view(s).len() == s.len(),
        forall|i: int| 0 <= i < s.len() ==> nodes_view(s)[i] == node_view(s[i]),
    decreases s,
{
    if s.len() > 0 {
        lemma_nodes_view(s.drop_last());
    }
}

/// Number of leaves and groups in a node, counted together.
pub open spec fn nv_size(n: NodeV) -> nat
    decreases n,
{
    match n {
        NodeV::Tkn(_) => 1,
        NodeV::Exp(children) => 1 + nvs_size(children),
    }
}

/// Total size of a node list.
pub open spec fn nvs_size(s: Seq<NodeV>) -> nat
    decreases s,
{
    if s.len() == 0 {
        0
    } else {
        nv_size(s[0]) + nvs_size(s.drop_first())
    }
}

pub proof fn lemma_nv_size_pos(n: NodeV)
    ensures
        nv_size(n) >= 1,
{
}

pub proof fn lemma_nvs_size_elem(s: Seq<NodeV>, i: int)
    requires
        0 <= i < s.len(),
    ensures
        nv_size(s[i]) <= nvs_size(s),
    decreases s,
{
    if i > 0 {
        lemma_nvs_size_elem(s.drop_first(), i - 1);
    } else {
        lemma_nvs_size_nonneg(s.drop_first());
    }
}

pub proof fn lemma_nvs_size_nonneg(s: Seq<NodeV>)
    ensures
        nvs_size(s) >= 0,
{
}

/// Character-by-character string equality, decided over the views.
pub fn str_eq(a: &str, b: &str) -> (r: bool)
    ensures
        r == (a@ == b@),
{
    let na = a.unicode_len();
    let nb = b.unicode_len();
    if na != nb {
        return false;
    }
    let mut i: usize = 0;
    while i < na
        invariant
            na == a@.len(),
            nb == b@.len(),
            na == nb,
            i <= na,
            forall|j: int| 0 <= j < i ==> a@[j] == b@[j],
        decreases na - i,
    {
        if a.get_char(i) != b.get_char(i) {
            return false;
        }
        i += 1;
    }
    proof {
        assert(a@ =~= b@);
    }
    true
}

/// The reserved prefix operators.
pub open spec fn is_unary_op_text(t: Seq<char>) -> bool {
    t == "-"@ || t == "&"@ || t == "!"@
}

/// Membership of a token text in a precedence tier, highest tier first.
pub open spec fn in_tier(t: Seq<char>, tier: int) -> bool {
    if tier == 0 {
        t == "^"@
    } else if tier == 1 {
        t == "*"@ || t == "/"@ || t == "//"@
    } else if tier == 2 {
        t == "+"@ || t == "-"@
    } else if tier == 3 {
        t == "=>"@ || t == "="@
    } else {
        false
    }
}

/// The binary (and assignment) operators of any tier.
pub open spec fn is_binary_op_text(t: Seq<char>) -> bool {
    in_tier(t, 0) || in_tier(t, 1) || in_tier(t, 2) || in_tier(t, 3)
}

/// A leaf holding a unary operator token.
pub open spec fn nv_is_unary_operator(n: NodeV) -> bool {
    match n {
        NodeV::Tkn(t) => is_unary_op_text(t),
        NodeV::Exp(_) => false,
    }
}

/// A leaf holding a binary or assignment operator token.
pub open spec fn nv_is_binary_operator(n: NodeV) -> bool {
    match n {
        NodeV::Tkn(t) => is_binary_op_text(t),
        NodeV::Exp(_) => false,
    }
}

/// A leaf holding any operator token.
pub open spec fn nv_is_operator(n: NodeV) -> bool {
    nv_is_unary_operator(n) || nv_is_binary_operator(n)
}

/// A leaf holding exactly the text `t`.
pub open spec fn nv_is_str(n: NodeV, t: Seq<char>) -> bool {
    match n {
        NodeV::Tkn(u) => u == t,
        NodeV::Exp(_) => false,
    }
}

/// Single-child groups unwrap to their only member.
pub open spec fn nv_unrolled(n: NodeV) -> NodeV
    decreases nv_size(n),
{
    match n {
        NodeV::Tkn(_) => n,
        NodeV::Exp(children) => if children.len() == 1 {
            nv_unrolled(children[0])
        } else {
            n
        },
    }
}

impl Node {
    /// Whether this node is a leaf holding a unary operator token.
    pub fn is_unary_operator(&self) -> (r: bool)
        ensures
            r == nv_is_unary_operator(node_view(*self)),
    {
        match self {
            Node::Exp(_) => false,
            Node::Tkn(token) => {
                str_eq(token.as_str(), "-") || str_eq(token.as_str(), "&") || str_eq(
                    token.as_str(),
                    "!",
                )
            },
        }
    }

    /// Whether this node is a leaf holding a binary or assignment operator.
    pub fn is_binary_operator(&self) -> (r: bool)
        ensures
            r == nv_is_binary_operator(node_view(*self)),
    {
        match self {
            Node::Exp(_) => false,
            Node::Tkn(token) => {
                let t = token.as_str();
                str_eq(t, "^") || str_eq(t, "*") || str_eq(t, "/") || str_eq(t, "//") || str_eq(
                    t,
                    "+",
                ) || str_eq(t, "-") || str_eq(t, "=>") || str_eq(t, "=")
            },
        }
    }

    /// Whether this node is a leaf holding any operator token.
    pub fn is_operator(&self) -> (r: bool)
        ensures
            r == nv_is_operator(node_view(*self)),
    {
        self.is_unary_operator() || self.is_binary_operator()
    }

    /// Whether this node is a leaf holding exactly the text `s`.
    pub fn is_str(&self, s: &str) -> (r: bool)
        ensures
            r == nv_is_str(node_view(*self), s@),
    {
        match self {
            Node::Exp(_) => false,
            Node::Tkn(token) => str_eq(token.as_str(), s),
        }
    }

    /// The token of an assignment-operator leaf, if this is one.
    pub fn as_assignment_operator(&self) -> (r: Option<&String>)
        ensures
            match r {
                Some(t) => {
                    &&& node_view(*self) == NodeV::Tkn(t@)
                    &&& (t@ == "="@ || t@ == "=>"@)
                },
                None => {
                    match node_view(*self) {
                        NodeV::Tkn(t) => t != "="@ && t != "=>"@,
                        NodeV::Exp(_) => true,
                    }
                },
            },
    {
        match self {
            Node::Exp(_) => None,
            Node::Tkn(token) => {
                if str_eq(token.as_str(), "=") || str_eq(token.as_str(), "=>") {
                    Some(token)
                } else {
                    None
                }
            },
        }
    }

    /// The token of a leaf, if this is one; every leaf counts as a name.
    pub fn as_identifier(&self) -> (r: Option<&String>)
        ensures
            match r {
                Some(t) => node_view(*self) == NodeV::Tkn(t@),
                None => node_view(*self) is Exp,
            },
    {
        match self {
            Node::Exp(_) => None,
            Node::Tkn(token) => Some(token),
        }
    }

    /// Unwraps nested single-child groups down to their only member.
    pub fn unrolled(&self) -> (r: &Node)
        ensures
            node_view(*r) == nv_unrolled(node_view(*self)),
        decreases nv_size(node_view(*self)),
    {
        match self {
            Node::Tkn(_) => {
                proof {
                    assert(node_view(*self) is Tkn);
                }
                self
            },
            Node::Exp(subnodes) => {
                proof {
                    lemma_nodes_view(subnodes@);
                    assert(node_view(*self) == NodeV::Exp(nodes_view(subnodes@)));
                }
                if subnodes.len() == 1 {
                    proof {
                        lemma_nvs_size_elem(nodes_view(subnodes@), 0);
                    }
                    subnodes[0].unrolled()
                } else {
                    self
                }
            },
        }
    }

    /// A deep copy of this node.
    pub fn duplicate(&self) -> (r: Node)
        ensures
            node_view(r) == node_view(*self),
        decreases nv_size(node_view(*self)),
    {
        match self {
            Node::Tkn(token) => Node::Tkn(token.clone()),
            Node::Exp(subnodes) => {
                let mut out: Vec<Node> = Vec::new();
                let mut i: usize = 0;
                while i < subnodes.len()
                    invariant
                        i <= subnodes@.len(),
                        out@.len() == i,
                        forall|j: int|
                            0 <= j < i ==> node_view(out@[j]) == node_view(subnodes@[j]),
                        nv_size(node_view(*self)) == 1 + nvs_size(nodes_view(subnodes@)),
                    decreases subnodes@.len() - i,
                {
                    proof {
                        lemma_nodes_view(subnodes@);
                        lemma_nvs_size_elem(nodes_view(subnodes@), i as int);
                    }
                    let child = subnodes[i].duplicate();
                    out.push(child);
                    i += 1;
                }
                proof {
                    lemma_nodes_view(out@);
                    lemma_nodes_view(subnodes@);
                    assert(nodes_view(out@) =~= nodes_view(subnodes@));
                }
                Node::Exp(out)
            },
        }
    }
}

// ------------------------------------------------------------------
// Square brackets: every `[...]` span becomes one group, single level,
// keeping both markers among its children.
// ------------------------------------------------------------------

/// One scan over the leaves, accumulating finished nodes in `acc` and the
/// contents of an open bracket, if any, in `cur`.
pub open spec fn square_rec(
    v: Seq<NodeV>,
    i: int,
    acc: Seq<NodeV>,
    cur: Option<Seq<NodeV>>,
) -> Result<Seq<NodeV>, ExpressionBuildError>
    decreases v.len() - i,
{
    if i < 0 || i >= v.len() {
        match cur {
            Some(_) => Err(ExpressionBuildError::UnbalancedBracket),
            None => Ok(acc),
        }
    } else {
        let nd = v[i];
        match cur {
            Some(c) => {
                if nv_is_str(nd, "]"@) {
                    let group = seq![NodeV::Tkn("["@)] + c + seq![NodeV::Tkn("]"@)];
                    square_rec(v, i + 1, acc.push(NodeV::Exp(group)), None)
                } else {
                    square_rec(v, i + 1, acc, Some(c.push(nd)))
                }
            },
            None => {
                if nv_is_str(nd, "["@) {
                    square_rec(v, i + 1, acc, Some(Seq::<NodeV>::empty()))
                } else {
                    square_rec(v, i + 1, acc.push(nd), None)
                }
            },
        }
    }
}

/// The bracket pass over a whole leaf list.
pub open spec fn spec_parse_square_braces(v: Seq<NodeV>) -> Result<
    Seq<NodeV>,
    ExpressionBuildError,
> {
    square_rec(v, 0, Seq::<NodeV>::empty(), None)
}

/// Groups every `[...]` span into one node whose first child is the `[`
/// marker; fails when a `[` is never closed.
pub fn parse_square_braces(nodes: Vec<Node>) -> (r: Result<Vec<Node>, ExpressionBuildError>)
    ensures
        match r {
            Ok(out) => spec_parse_square_braces(nodes_view(nodes@)) == Ok::<
                Seq<NodeV>,
                ExpressionBuildError,
            >(nodes_view(out@)),
            Err(e) => spec_parse_square_braces(nodes_view(nodes@)) == Err::<
                Seq<NodeV>,
                ExpressionBuildError,
            >(e),
        },
{
    let ghost v = nodes_view(nodes@);
    proof {
        lemma_nodes_view(nodes@);
    }
    let mut acc: Vec<Node> = Vec::new();
    let mut cur: Vec<Node> = Vec::new();
    let mut in_bracket = false;
    let mut i: usize = 0;
    proof {
        assert(nodes_view(acc@) =~= Seq::<NodeV>::empty());
    }
    while i < nodes.len()
        invariant
            i <= nodes@.len(),
            v == nodes_view(nodes@),
            v.len() == nodes@.len(),
            forall|j: int| 0 <= j < nodes@.len() ==> v[j] == node_view(nodes@[j]),
            !in_bracket ==> cur@.len() == 0,
            square_rec(
                v,
                i as int,
                nodes_view(acc@),
                if in_bracket {
                    Some(nodes_view(cur@))
                } else {
                    None
                },
            ) == spec_parse_square_braces(v),
        decreases nodes@.len() - i,
    {
        let ghost acc0 = nodes_view(acc@);
        let ghost cur0 = nodes_view(cur@);
        let nd = &nodes[i];
        if in_bracket {
            if nd.is_str("]") {
                let ghost group_spec = seq![NodeV::Tkn("["@)] + cur0 + seq![NodeV::Tkn("]"@)];
                let ghost curs = cur@;
                proof {
                    lemma_nodes_view(curs);
                }
                let mut group: Vec<Node> = Vec::new();
                group.push(Node::Tkn(String::from_str("[")));
                group.append(&mut cur);
                group.push(Node::Tkn(String::from_str("]")));
                proof {
                    lemma_nodes_view(group@);
                    assert(group@.len() == 2 + curs.len());
                    assert forall|j: int| 0 <= j < group@.len() implies nodes_view(group@)[j]
                        == group_spec[j] by {
                        if 1 <= j < 1 + curs.len() {
                            assert(group@[j] == curs[j - 1]);
                            assert(group_spec[j] == cur0[j - 1]);
                        }
                    }
                    assert(nodes_view(group@) =~= group_spec);
                }
                let ghost accs = acc@;
                acc.push(Node::Exp(group));
                in_bracket = false;
                proof {
                    lemma_nodes_view_unsnoc(acc@);
                    assert(acc@.drop_last() =~= accs);
                    assert(nodes_view(acc@) == acc0.push(NodeV::Exp(group_spec)));
                }
            } else {
                let ghost curs = cur@;
                cur.push(nd.duplicate());
                proof {
                    lemma_nodes_view_unsnoc(cur@);
                    assert(cur@.drop_last() =~= curs);
                    assert(nodes_view(cur@) == cur0.push(v[i as int]));
                }
            }
        } else {
            if nd.is_str("[") {
                in_bracket = true;
            } else {
                let ghost accs = acc@;
                acc.push(nd.duplicate());
                proof {
                    lemma_nodes_view_unsnoc(acc@);
                    assert(acc@.drop_last() =~= accs);
                    assert(nodes_view(acc@) == acc0.push(v[i as int]));
                }
            }
        }
        i += 1;
    }
    if in_bracket {
        return Err(ExpressionBuildError::UnbalancedBracket);
    }
    Ok(acc)
}

// ------------------------------------------------------------------
// Parentheses: every `(...)` span becomes one group, recursively,
// inside bracket groups too.  A `(` that is never closed is an error;
// a stray `)` closes an implicit opening at the start of its level.
// ------------------------------------------------------------------

/// The views of a stack of partially built levels.
pub open spec fn stack_view(s: Seq<Vec<Node>>) -> Seq<Seq<NodeV>> {
    s.map_values(|vv: Vec<Node>| nodes_view(vv@))
}

/// One scan with a stack of open levels: `(` opens a level, `)` closes the
/// newest one into a group, and everything else lands on the newest level
/// after its own children are resolved.
pub open spec fn paren_rec(v: Seq<NodeV>, i: int, stack: Seq<Seq<NodeV>>) -> Result<
    Seq<NodeV>,
    ExpressionBuildError,
>
    decreases nvs_size(v), v.len() - i,
    via paren_rec_dec
{
    if stack.len() == 0 {
        Err(ExpressionBuildError::UnbalancedParenthesis)
    } else if i < 0 || i >= v.len() {
        if stack.len() == 1 {
            Ok(stack.last())
        } else {
            Err(ExpressionBuildError::UnbalancedParenthesis)
        }
    } else {
        let nd = v[i];
        if nv_is_str(nd, "("@) {
            paren_rec(v, i + 1, stack.push(Seq::<NodeV>::empty()))
        } else if nv_is_str(nd, ")"@) {
            if stack.len() >= 2 {
                let top = stack.last();
                let rest = stack.drop_last();
                paren_rec(
                    v,
                    i + 1,
                    rest.update(rest.len() - 1, rest.last().push(NodeV::Exp(top))),
                )
            } else {
                paren_rec(v, i + 1, seq![seq![NodeV::Exp(stack.last())]])
            }
        } else {
            match nv_resolve_parens(nd) {
                Ok(nd2) => paren_rec(v, i + 1, stack.update(stack.len() - 1, stack.last().push(nd2))),
                Err(e) => Err(e),
            }
        }
    }
}

#[via_fn]
proof fn paren_rec_dec(v: Seq<NodeV>, i: int, stack: Seq<Seq<NodeV>>) {
    if 0 <= i < v.len() {
        lemma_nvs_size_elem(v, i);
    }
}

/// Resolves parentheses inside a node: a leaf is itself, a group has its
/// children resolved as a level of their own.
pub open spec fn nv_resolve_parens(n: NodeV) -> Result<NodeV, ExpressionBuildError>
    decreases nv_size(n), 0int,
{
    match n {
        NodeV::Tkn(_) => Ok(n),
        NodeV::Exp(ch) => match spec_parse_tree_braces(ch) {
            Ok(r) => Ok(NodeV::Exp(r)),
            Err(e) => Err(e),
        },
    }
}

/// The parenthesis pass over a node list.
pub open spec fn spec_parse_tree_braces(v: Seq<NodeV>) -> Result<Seq<NodeV>, ExpressionBuildError>
    decreases nvs_size(v), v.len() + 1,
{
    paren_rec(v, 0, seq![Seq::<NodeV>::empty()])
}

/// Resolves parentheses inside one node.
pub fn parse_tree_braces_node(n: &Node) -> (r: Result<Node, ExpressionBuildError>)
    ensures
        match r {
            Ok(out) => nv_resolve_parens(node_view(*n)) == Ok::<NodeV, ExpressionBuildError>(
                node_view(out),
            ),
            Err(e) => nv_resolve_parens(node_view(*n)) == Err::<NodeV, ExpressionBuildError>(e),
        },
    decreases nv_size(node_view(*n)), 0int,
{
    match n {
        Node::Tkn(token) => Ok(Node::Tkn(token.clone())),
        Node::Exp(children) => {
            proof {
                assert(node_view(*n) == NodeV::Exp(nodes_view(children@)));
            }
            match parse_tree_braces(children) {
                Ok(r2) => Ok(Node::Exp(r2)),
                Err(e) => Err(e),
            }
        },
    }
}

/// Turns every `(...)` span into one group, recursively; fails when a `(`
/// is never closed.  A stray `)` groups everything before it on its level.
pub fn parse_tree_braces(nodes: &Vec<Node>) -> (r: Result<Vec<Node>, ExpressionBuildError>)
    ensures
        match r {
            Ok(out) => spec_parse_tree_braces(nodes_view(nodes@)) == Ok::<
                Seq<NodeV>,
                ExpressionBuildError,
            >(nodes_view(out@)),
            Err(e) => spec_parse_tree_braces(nodes_view(nodes@)) == Err::<
                Seq<NodeV>,
                ExpressionBuildError,
            >(e),
        },
    decreases nvs_size(nodes_view(nodes@)), nodes@.len() + 1,
{
    let ghost v = nodes_view(nodes@);
    proof {
        lemma_nodes_view(nodes@);
    }
    let mut stack: Vec<Vec<Node>> = Vec::new();
    stack.push(Vec::new());
    proof {
        assert(stack_view(stack@) =~= seq![Seq::<NodeV>::empty()]);
    }
    let mut i: usize = 0;
    while i < nodes.len()
        invariant
            stack@.len() >= 1,
            i <= nodes@.len(),
            v == nodes_view(nodes@),
            v.len() == nodes@.len(),
            forall|j: int| 0 <= j < nodes@.len() ==> v[j] == node_view(nodes@[j]),
            paren_rec(v, i as int, stack_view(stack@)) == spec_parse_tree_braces(v),
        decreases nodes@.len() - i,
    {
        let ghost st0 = stack_view(stack@);
        let nd = &nodes[i];
        if nd.is_str("(") {
            stack.push(Vec::new());
            proof {
                assert(stack_view(stack@) =~= st0.push(Seq::<NodeV>::empty()));
            }
        } else if nd.is_str(")") {
            if stack.len() >= 2 {
                let top = stack.pop().unwrap();
                let mut under = stack.pop().unwrap();
                let ghost unders = under@;
                under.push(Node::Exp(top));
                proof {
                    lemma_nodes_view_unsnoc(under@);
                    assert(under@.drop_last() =~= unders);
                }
                stack.push(under);
                proof {
                    let rest = st0.drop_last();
                    assert(stack_view(stack@) =~= rest.update(
                        rest.len() - 1,
                        rest.last().push(NodeV::Exp(st0.last())),
                    ));
                }
            } else {
                let top = stack.pop().unwrap();
                let mut lvl: Vec<Node> = Vec::new();
                lvl.push(Node::Exp(top));
                proof {
                    lemma_nodes_view_unsnoc(lvl@);
                    assert(lvl@.drop_last() =~= Seq::<Node>::empty());
                }
                stack.push(lvl);
                proof {
                    assert(stack_view(stack@) =~= seq![seq![NodeV::Exp(st0.last())]]);
                }
            }
        } else {
            proof {
                lemma_nvs_size_elem(v, i as int);
            }
            let nd2 = match parse_tree_braces_node(nd) {
                Ok(x) => x,
                Err(e) => {
                    proof {
                        assert(paren_rec(v, i as int, st0) == Err::<Seq<NodeV>,
                            ExpressionBuildError,
                        >(e));
                    }
                    return Err(e);
                },
            };
            let mut topv = stack.pop().unwrap();
            let ghost topvs = topv@;
            topv.push(nd2);
            proof {
                lemma_nodes_view_unsnoc(topv@);
                assert(topv@.drop_last() =~= topvs);
            }
            stack.push(topv);
            proof {
                assert(stack_view(stack@) =~= st0.update(
                    st0.len() - 1,
                    st0.last().push(nv_resolve_parens(v[i as int]).unwrap()),
                ));
            }
        }
        i += 1;
    }
    if stack.len() == 1 {
        let ghost stv = stack_view(stack@);
        let out = stack.pop().unwrap();
        proof {
            assert(spec_parse_tree_braces(v) == Ok::<Seq<NodeV>, ExpressionBuildError>(
                stv.last(),
            ));
            assert(nodes_view(out@) == stv.last());
        }
        Ok(out)
    } else {
        Err(ExpressionBuildError::UnbalancedParenthesis)
    }
}

// ------------------------------------------------------------------
// Ans-fill: a line starting with a binary operator continues the
// previous result.
// ------------------------------------------------------------------

/// Prepends the `ans` leaf when the first node is a binary operator.
pub open spec fn spec_fill_missing_ans(v: Seq<NodeV>) -> Seq<NodeV> {
    if v.len() > 0 && nv_is_binary_operator(v[0]) {
        seq![NodeV::Tkn("ans"@)] + v
    } else {
        v
    }
}

/// Inserts a synthetic `ans` leaf in front of a leading binary operator, so
/// a continuation expression operates on the previous result.
pub fn fill_missing_ans(nodes: &mut Vec<Node>)
    ensures
        nodes_view(final(nodes)@) == spec_fill_missing_ans(nodes_view(old(nodes)@)),
{
    proof {
        lemma_nodes_view(nodes@);
    }
    if nodes.len() > 0 {
        let first_is_op = nodes[0].is_binary_operator();
        if first_is_op {
            nodes.insert(0, Node::Tkn(String::from_str("ans")));
            proof {
                lemma_nodes_view(nodes@);
                lemma_nodes_view(old(nodes)@);
                assert(nodes_view(nodes@) =~= seq![NodeV::Tkn("ans"@)] + nodes_view(
                    old(nodes)@,
                ));
            }
        }
    }
}

// ------------------------------------------------------------------
// Implicit calls: two adjacent non-operators become "callee applied
// to argument", left to right, at the top level only.
// ------------------------------------------------------------------

/// One scan that joins an accumulated non-operator with a following
/// non-operator into a two-child group; the group can be joined again.
pub open spec fn calls_rec(v: Seq<NodeV>, i: int, acc: Seq<NodeV>) -> Seq<NodeV>
    decreases v.len() - i,
{
    if i < 0 || i >= v.len() {
        acc
    } else {
        let nd = v[i];
        if acc.len() > 0 && !nv_is_operator(nv_unrolled(acc.last())) && !nv_is_operator(
            nv_unrolled(nd),
        ) {
            calls_rec(v, i + 1, acc.drop_last().push(NodeV::Exp(seq![acc.last(), nd])))
        } else {
            calls_rec(v, i + 1, acc.push(nd))
        }
    }
}

/// The implicit-call pass over the top-level node list.
pub open spec fn spec_parse_functions(v: Seq<NodeV>) -> Seq<NodeV> {
    calls_rec(v, 0, Seq::<NodeV>::empty())
}

/// Groups adjacent non-operator siblings into callee/argument pairs.
pub fn parse_functions(nodes: &Vec<Node>) -> (out: Vec<Node>)
    ensures
        nodes_view(out@) == spec_parse_functions(nodes_view(nodes@)),
{
    let ghost v = nodes_view(nodes@);
    proof {
        lemma_nodes_view(nodes@);
    }
    let mut acc: Vec<Node> = Vec::new();
    let mut i: usize = 0;
    proof {
        assert(nodes_view(acc@) =~= Seq::<NodeV>::empty());
    }
    while i < nodes.len()
        invariant
            i <= nodes@.len(),
            v == nodes_view(nodes@),
            v.len() == nodes@.len(),
            forall|j: int| 0 <= j < nodes@.len() ==> v[j] == node_view(nodes@[j]),
            calls_rec(v, i as int, nodes_view(acc@)) == spec_parse_functions(v),
        decreases nodes@.len() - i,
    {
        let ghost acc0 = nodes_view(acc@);
        let nd = &nodes[i];
        let joinable = if acc.len() > 0 {
            let prev_op = acc[acc.len() - 1].unrolled().is_operator();
            let cur_op = nd.unrolled().is_operator();
            proof {
                lemma_nodes_view(acc@);
            }
            !prev_op && !cur_op
        } else {
            false
        };
        if joinable {
            let ghost accs = acc@;
            let prev = acc.pop().unwrap();
            let mut pair: Vec<Node> = Vec::new();
            pair.push(prev);
            pair.push(nd.duplicate());
            proof {
                lemma_nodes_view(pair@);
                assert(nodes_view(pair@) =~= seq![acc0.last(), v[i as int]]);
            }
            let ghost accp = acc@;
            acc.push(Node::Exp(pair));
            proof {
                lemma_nodes_view_unsnoc(acc@);
                assert(acc@.drop_last() =~= accp);
                assert(accp =~= accs.drop_last());
                assert(nodes_view(accp) =~= acc0.drop_last()) by {
                    lemma_nodes_view(accp);
                    lemma_nodes_view(accs);
                }
                assert(nodes_view(acc@) == acc0.drop_last().push(
                    NodeV::Exp(seq![acc0.last(), v[i as int]]),
                ));
            }
        } else {
            let ghost accs = acc@;
            acc.push(nd.duplicate());
            proof {
                lemma_nodes_view_unsnoc(acc@);
                assert(acc@.drop_last() =~= accs);
                assert(nodes_view(acc@) == acc0.push(v[i as int]));
            }
        }
        i += 1;
    }
    acc
}

// ------------------------------------------------------------------
// Unary wrapping: a unary operator at the start of a level, or right
// after another operator, pairs with the single node to its right.
// ------------------------------------------------------------------

/// One scan that wraps qualifying unary operators with their operand and
/// descends into child groups.
pub open spec fn unary_rec(v: Seq<NodeV>, i: int, acc: Seq<NodeV>) -> Seq<NodeV>
    decreases nvs_size(v), v.len() - i,
    via unary_rec_dec
{
    if i < 0 || i >= v.len() {
        acc
    } else {
        let nd = v[i];
        if nv_is_unary_operator(nd) && (acc.len() == 0 || nv_is_operator(acc.last())) && i + 1
            < v.len() {
            unary_rec(v, i + 2, acc.push(NodeV::Exp(seq![nd, v[i + 1]])))
        } else {
            match nd {
                NodeV::Exp(ch) => unary_rec(v, i + 1, acc.push(NodeV::Exp(spec_parse_unary(ch)))),
                NodeV::Tkn(_) => unary_rec(v, i + 1, acc.push(nd)),
            }
        }
    }
}

#[via_fn]
proof fn unary_rec_dec(v: Seq<NodeV>, i: int, acc: Seq<NodeV>) {
    if 0 <= i < v.len() {
        lemma_nvs_size_elem(v, i);
    }
}

/// The unary pass over a node list.
pub open spec fn spec_parse_unary(v: Seq<NodeV>) -> Seq<NodeV>
    decreases nvs_size(v), v.len() + 1,
{
    unary_rec(v, 0, Seq::<NodeV>::empty())
}

/// Wraps each prefix operator with its operand into a two-child group, so
/// neither is later mistaken for a binary operand.
pub fn parse_unary(nodes: &Vec<Node>) -> (out: Vec<Node>)
    ensures
        nodes_view(out@) == spec_parse_unary(nodes_view(nodes@)),
    decreases nvs_size(nodes_view(nodes@)), nodes@.len() + 1,
{
    let ghost v = nodes_view(nodes@);
    proof {
        lemma_nodes_view(nodes@);
    }
    let mut acc: Vec<Node> = Vec::new();
    let mut i: usize = 0;
    proof {
        assert(nodes_view(acc@) =~= Seq::<NodeV>::empty());
    }
    while i < nodes.len()
        invariant
            i <= nodes@.len(),
            v == nodes_view(nodes@),
            v.len() == nodes@.len(),
            forall|j: int| 0 <= j < nodes@.len() ==> v[j] == node_view(nodes@[j]),
            unary_rec(v, i as int, nodes_view(acc@)) == spec_parse_unary(v),
        decreases nodes@.len() - i,
    {
        let ghost acc0 = nodes_view(acc@);
        let nd = &nodes[i];
        let wrap = if nd.is_unary_operator() && i + 1 < nodes.len() {
            if acc.len() == 0 {
                true
            } else {
                proof {
                    lemma_nodes_view(acc@);
                }
                acc[acc.len() - 1].is_operator()
            }
        } else {
            false
        };
        if wrap {
            let mut pair: Vec<Node> = Vec::new();
            pair.push(nd.duplicate());
            pair.push(nodes[i + 1].duplicate());
            proof {
                lemma_nodes_view(pair@);
                assert(nodes_view(pair@) =~= seq![v[i as int], v[i as int + 1]]);
            }
            let ghost accs = acc@;
            acc.push(Node::Exp(pair));
            proof {
                lemma_nodes_view_unsnoc(acc@);
                assert(acc@.drop_last() =~= accs);
                assert(nodes_view(acc@) == acc0.push(
                    NodeV::Exp(seq![v[i as int], v[i as int + 1]]),
                ));
            }
            i += 2;
        } else {
            match nd {
                Node::Exp(children) => {
                    proof {
                        lemma_nvs_size_elem(v, i as int);
                        assert(v[i as int] == NodeV::Exp(nodes_view(children@)));
                    }
                    let inner = parse_unary(children);
                    let ghost accs = acc@;
                    acc.push(Node::Exp(inner));
                    proof {
                        lemma_nodes_view_unsnoc(acc@);
                        assert(acc@.drop_last() =~= accs);
                    }
                },
                Node::Tkn(_) => {
                    let ghost accs = acc@;
                    acc.push(nd.duplicate());
                    proof {
                        lemma_nodes_view_unsnoc(acc@);
                        assert(acc@.drop_last() =~= accs);
                        assert(nodes_view(acc@) == acc0.push(v[i as int]));
                    }
                },
            }
            i += 1;
        }
    }
    acc
}

// ------------------------------------------------------------------
// Precedence folding: tier by tier, left to right, children first.
// ------------------------------------------------------------------

/// A leaf holding an operator of the given tier.
pub open spec fn nv_in_tier(n: NodeV, tier: int) -> bool {
    match n {
        NodeV::Tkn(t) => in_tier(t, tier),
        NodeV::Exp(_) => false,
    }
}

/// One left-to-right scan of a sibling list for one tier: an operator with
/// both neighbours present folds into a three-child group, which can serve
/// as the left operand of the next fold.
pub open spec fn tier_fold(v: Seq<NodeV>, tier: int, i: int, acc: Seq<NodeV>) -> Seq<NodeV>
    decreases v.len() - i,
{
    if i < 0 || i >= v.len() {
        acc
    } else {
        let nd = v[i];
        if nv_in_tier(nd, tier) && acc.len() > 0 && i + 1 < v.len() {
            tier_fold(
                v,
                tier,
                i + 2,
                acc.drop_last().push(NodeV::Exp(seq![acc.last(), nd, v[i + 1]])),
            )
        } else {
            tier_fold(v, tier, i + 1, acc.push(nd))
        }
    }
}

/// Folds every child group of a list, post-order.
pub open spec fn fold_map(ch: Seq<NodeV>, i: int, acc: Seq<NodeV>) -> Seq<NodeV>
    decreases nvs_size(ch), ch.len() - i,
    via fold_map_dec
{
    if i < 0 || i >= ch.len() {
        acc
    } else {
        fold_map(ch, i + 1, acc.push(spec_parse_binary_node(ch[i])))
    }
}

#[via_fn]
proof fn fold_map_dec(ch: Seq<NodeV>, i: int, acc: Seq<NodeV>) {
    if 0 <= i < ch.len() {
        lemma_nvs_size_elem(ch, i);
    }
}

/// Folds all tiers inside a node, post-order.
pub open spec fn spec_parse_binary_node(n: NodeV) -> NodeV
    decreases nv_size(n), 0int,
{
    match n {
        NodeV::Tkn(_) => n,
        NodeV::Exp(ch) => NodeV::Exp(spec_parse_binary(ch)),
    }
}

/// The precedence pass over a sibling list: children first, then the four
/// tiers in order, each in one left-to-right scan.
pub open spec fn spec_parse_binary(ch: Seq<NodeV>) -> Seq<NodeV>
    decreases nvs_size(ch), ch.len() + 1,
{
    let m = fold_map(ch, 0, Seq::<NodeV>::empty());
    let t0 = tier_fold(m, 0, 0, Seq::<NodeV>::empty());
    let t1 = tier_fold(t0, 1, 0, Seq::<NodeV>::empty());
    let t2 = tier_fold(t1, 2, 0, Seq::<NodeV>::empty());
    tier_fold(t2, 3, 0, Seq::<NodeV>::empty())
}

/// Whether a token text belongs to the given precedence tier.
fn token_in_tier(t: &str, tier: usize) -> (r: bool)
    ensures
        r == in_tier(t@, tier as int),
{
    if tier == 0 {
        str_eq(t, "^")
    } else if tier == 1 {
        str_eq(t, "*") || str_eq(t, "/") || str_eq(t, "//")
    } else if tier == 2 {
        str_eq(t, "+") || str_eq(t, "-")
    } else if tier == 3 {
        str_eq(t, "=>") || str_eq(t, "=")
    } else {
        false
    }
}

/// One left-to-right folding scan of one tier over a sibling list.
fn fold_tier(nodes: &Vec<Node>, tier: usize) -> (out: Vec<Node>)
    ensures
        nodes_view(out@) == tier_fold(
            nodes_view(nodes@),
            tier as int,
            0,
            Seq::<NodeV>::empty(),
        ),
{
    let ghost v = nodes_view(nodes@);
    proof {
        lemma_nodes_view(nodes@);
    }
    let mut acc: Vec<Node> = Vec::new();
    let mut i: usize = 0;
    proof {
        assert(nodes_view(acc@) =~= Seq::<NodeV>::empty());
    }
    while i < nodes.len()
        invariant
            i <= nodes@.len(),
            v == nodes_view(nodes@),
            v.len() == nodes@.len(),
            forall|j: int| 0 <= j < nodes@.len() ==> v[j] == node_view(nodes@[j]),
            tier_fold(v, tier as int, i as int, nodes_view(acc@)) == tier_fold(
                v,
                tier as int,
                0,
                Seq::<NodeV>::empty(),
            ),
        decreases nodes@.len() - i,
    {
        let ghost acc0 = nodes_view(acc@);
        let nd = &nodes[i];
        let is_tier_op = match nd {
            Node::Tkn(token) => token_in_tier(token.as_str(), tier),
            Node::Exp(_) => false,
        };
        if is_tier_op && acc.len() > 0 && i + 1 < nodes.len() {
            let ghost accs = acc@;
            let prev = acc.pop().unwrap();
            let mut triple: Vec<Node> = Vec::new();
            triple.push(prev);
            triple.push(nd.duplicate());
            triple.push(nodes[i + 1].duplicate());
            proof {
                lemma_nodes_view(triple@);
                assert(nodes_view(triple@) =~= seq![
                    acc0.last(),
                    v[i as int],
                    v[i as int + 1],
                ]);
            }
            let ghost accp = acc@;
            acc.push(Node::Exp(triple));
            proof {
                lemma_nodes_view_unsnoc(acc@);
                assert(acc@.drop_last() =~= accp);
                assert(accp =~= accs.drop_last());
                assert(nodes_view(accp) =~= acc0.drop_last()) by {
                    lemma_nodes_view(accp);
                    lemma_nodes_view(accs);
                }
                assert(nodes_view(acc@) == acc0.drop_last().push(
                    NodeV::Exp(seq![acc0.last(), v[i as int], v[i as int + 1]]),
                ));
            }
            i += 2;
        } else {
            let ghost accs = acc@;
            acc.push(nd.duplicate());
            proof {
                lemma_nodes_view_unsnoc(acc@);
                assert(acc@.drop_last() =~= accs);
                assert(nodes_view(acc@) == acc0.push(v[i as int]));
            }
            i += 1;
        }
    }
    acc
}

/// Folds all tiers inside one node, children first.
pub fn parse_binary_node(n: &Node) -> (out: Node)
    ensures
        node_view(out) == spec_parse_binary_node(node_view(*n)),
    decreases nv_size(node_view(*n)), 0int,
{
    match n {
        Node::Tkn(token) => Node::Tkn(token.clone()),
        Node::Exp(children) => {
            proof {
                assert(node_view(*n) == NodeV::Exp(nodes_view(children@)));
            }
            Node::Exp(parse_binary(children))
        },
    }
}

/// Folds binary and assignment operators tier by tier, left to right, with
/// every child group folded first.
pub fn parse_binary(nodes: &Vec<Node>) -> (out: Vec<Node>)
    ensures
        nodes_view(out@) == spec_parse_binary(nodes_view(nodes@)),
    decreases nvs_size(nodes_view(nodes@)), nodes@.len() + 1,
{
    let ghost v = nodes_view(nodes@);
    proof {
        lemma_nodes_view(nodes@);
    }
    let mut mapped: Vec<Node> = Vec::new();
    let mut i: usize = 0;
    proof {
        assert(nodes_view(mapped@) =~= Seq::<NodeV>::empty());
    }
    while i < nodes.len()
        invariant
            i <= nodes@.len(),
            v == nodes_view(nodes@),
            v.len() == nodes@.len(),
            forall|j: int| 0 <= j < nodes@.len() ==> v[j] == node_view(nodes@[j]),
            fold_map(v, i as int, nodes_view(mapped@)) == fold_map(
                v,
                0,
                Seq::<NodeV>::empty(),
            ),
        decreases nodes@.len() - i,
    {
        let ghost m0 = nodes_view(mapped@);
        proof {
            lemma_nvs_size_elem(v, i as int);
        }
        let folded = parse_binary_node(&nodes[i]);
        let ghost ms = mapped@;
        mapped.push(folded);
        proof {
            lemma_nodes_view_unsnoc(mapped@);
            assert(mapped@.drop_last() =~= ms);
            assert(nodes_view(mapped@) == m0.push(spec_parse_binary_node(v[i as int])));
        }
        i += 1;
    }
    let t0 = fold_tier(&mapped, 0);
    let t1 = fold_tier(&t0, 1);
    let t2 = fold_tier(&t1, 2);
    let t3 = fold_tier(&t2, 3);
    t3
}

// ------------------------------------------------------------------
// Flat rendering of a tree's leaves, for diagnostics.
// ------------------------------------------------------------------

/// The flat text of a node: each leaf quoted and comma-separated.
pub open spec fn nv_flat(n: NodeV) -> Seq<char>
    decreases nv_size(n), 0int,
{
    match n {
        NodeV::Tkn(t) => seq!['\''] + t + seq!['\'', ',', ' '],
        NodeV::Exp(ch) => nvs_flat(ch),
    }
}

/// The flat text of a node list.
pub open spec fn nvs_flat(s: Seq<NodeV>) -> Seq<char>
    decreases nvs_size(s), s.len() + 1,
    via nvs_flat_dec
{
    if s.len() == 0 {
        Seq::<char>::empty()
    } else {
        nv_flat(s[0]) + nvs_flat(s.drop_first())
    }
}

#[via_fn]
proof fn nvs_flat_dec(s: Seq<NodeV>) {
    if s.len() > 0 {
        lemma_nvs_size_elem(s, 0);
        lemma_nv_size_pos(s[0]);
    }
}

proof fn lemma_nvs_flat_snoc(s: Seq<NodeV>, x: NodeV)
    ensures
        nvs_flat(s.push(x)) == nvs_flat(s) + nv_flat(x),
    decreases s.len(),
{
    assert(s.push(x).len() == s.len() + 1);
    assert(nvs_flat(s.push(x)) == nv_flat(s.push(x)[0]) + nvs_flat(s.push(x).drop_first()));
    if s.len() == 0 {
        assert(s.push(x)[0] == x);
        assert(s.push(x).drop_first() =~= Seq::<NodeV>::empty());
        assert(nvs_flat(Seq::<NodeV>::empty()) == Seq::<char>::empty());
        assert(nv_flat(x) + Seq::<char>::empty() =~= nv_flat(x));
        assert(Seq::<char>::empty() + nv_flat(x) =~= nv_flat(x));
    } else {
        assert(s.push(x)[0] == s[0]);
        assert(s.push(x).drop_first() =~= s.drop_first().push(x));
        lemma_nvs_flat_snoc(s.drop_first(), x);
        assert(nvs_flat(s) == nv_flat(s[0]) + nvs_flat(s.drop_first()));
        assert(nv_flat(s[0]) + (nvs_flat(s.drop_first()) + nv_flat(x)) =~= (nv_flat(s[0])
            + nvs_flat(s.drop_first())) + nv_flat(x));
    }
}

impl Node {
    /// Appends this node's flat text to `out`.
    fn flat_chars(&self, out: &mut Vec<char>)
        ensures
            final(out)@ == old(out)@ + nv_flat(node_view(*self)),
        decreases nv_size(node_view(*self)), 0int,
    {
        match self {
            Node::Tkn(token) => {
                let ghost start = out@;
                out.push('\'');
                let ts = token.as_str();
                let n = ts.unicode_len();
                let mut j: usize = 0;
                while j < n
                    invariant
                        n == token@.len(),
                        ts@ == token@,
                        j <= n,
                        out@ =~= start + seq!['\''] + token@.subrange(0, j as int),
                    decreases n - j,
                {
                    out.push(ts.get_char(j));
                    proof {
                        assert(token@.subrange(0, j as int).push(token@[j as int]) =~= token@
                            .subrange(0, j as int + 1));
                    }
                    j += 1;
                }
                out.push('\'');
                out.push(',');
                out.push(' ');
                proof {
                    assert(token@.subrange(0, n as int) =~= token@);
                    assert(out@ =~= start + (seq!['\''] + token@ + seq!['\'', ',', ' ']));
                }
            },
            Node::Exp(children) => {
                let ghost start = out@;
                let ghost chv = nodes_view(children@);
                proof {
                    lemma_nodes_view(children@);
                    assert(node_view(*self) == NodeV::Exp(chv));
                    assert(chv.subrange(0, 0) =~= Seq::<NodeV>::empty());
                    assert(start + nvs_flat(chv.subrange(0, 0)) =~= start);
                }
                let mut i: usize = 0;
                while i < children.len()
                    invariant
                        i <= children@.len(),
                        chv == nodes_view(children@),
                        chv.len() == children@.len(),
                        forall|j: int|
                            0 <= j < children@.len() ==> chv[j] == node_view(children@[j]),
                        nv_size(node_view(*self)) == 1 + nvs_size(chv),
                        out@ == start + nvs_flat(chv.subrange(0, i as int)),
                    decreases children@.len() - i,
                {
                    proof {
                        lemma_nvs_size_elem(chv, i as int);
                    }
                    children[i].flat_chars(out);
                    proof {
                        assert(chv.subrange(0, i as int).push(chv[i as int]) =~= chv.subrange(
                            0,
                            i as int + 1,
                        ));
                        lemma_nvs_flat_snoc(chv.subrange(0, i as int), chv[i as int]);
                        assert(out@ =~= start + nvs_flat(chv.subrange(0, i as int + 1)));
                    }
                    i += 1;
                }
                proof {
                    assert(chv.subrange(0, chv.len() as int) =~= chv);
                }
            },
        }
    }

    /// The flat text of this node: each leaf quoted and comma-separated.
    pub fn flat_string(&self) -> (r: String)
        ensures
            r@ == nv_flat(node_view(*self)),
    {
        let mut out: Vec<char> = Vec::new();
        self.flat_chars(&mut out);
        proof {
            assert(Seq::<char>::empty() + nv_flat(node_view(*self)) =~= nv_flat(
                node_view(*self),
            ));
        }
        crate::tokens::string_from_chars(&out)
    }
}

// ------------------------------------------------------------------
// The whole tree builder.
// ------------------------------------------------------------------

/// The expression tree of a token list: bracket groups, then parenthesis
/// groups, then the ans-fill, implicit-call and unary normalisations, then
/// precedence folding.
pub open spec fn spec_build_expression_tree(toks: Seq<Seq<char>>) -> Result<
    NodeV,
    ExpressionBuildError,
> {
    let leaves = toks.map_values(|t: Seq<char>| NodeV::Tkn(t));
    match spec_parse_square_braces(leaves) {
        Err(e) => Err(e),
        Ok(v1) => match spec_parse_tree_braces(v1) {
            Err(e) => Err(e),
            Ok(v2) => {
                let v3 = spec_fill_missing_ans(v2);
                let v4 = spec_parse_functions(v3);
                let v5 = spec_parse_unary(v4);
                let v6 = spec_parse_binary(v5);
                Ok(NodeV::Exp(v6))
            },
        },
    }
}

/// Builds the expression tree of a token sequence, honouring grouping,
/// implicit calls, unary operators and operator precedence.
pub fn build_expression_tree(token_sequence: Vec<Token>) -> (r: Result<
    Node,
    ExpressionBuildError,
>)
    ensures
        match r {
            Ok(root) => spec_build_expression_tree(crate::tokens::tokens_view(token_sequence@))
                == Ok::<NodeV, ExpressionBuildError>(node_view(root)),
            Err(e) => spec_build_expression_tree(crate::tokens::tokens_view(token_sequence@))
                == Err::<NodeV, ExpressionBuildError>(e),
        },
{
    let ghost toks = crate::tokens::tokens_view(token_sequence@);
    let mut leaves: Vec<Node> = Vec::new();
    let mut i: usize = 0;
    while i < token_sequence.len()
        invariant
            i <= token_sequence@.len(),
            toks == crate::tokens::tokens_view(token_sequence@),
            toks.len() == token_sequence@.len(),
            leaves@.len() == i,
            forall|j: int|
                0 <= j < i ==> node_view(leaves@[j]) == NodeV::Tkn(toks[j]),
        decreases token_sequence@.len() - i,
    {
        leaves.push(Node::Tkn(token_sequence[i].clone()));
        i += 1;
    }
    proof {
        lemma_nodes_view(leaves@);
        assert(nodes_view(leaves@) =~= toks.map_values(|t: Seq<char>| NodeV::Tkn(t)));
    }
    let g1 = match parse_square_braces(leaves) {
        Ok(x) => x,
        Err(e) => {
            return Err(e);
        },
    };
    let g2 = match parse_tree_braces(&g1) {
        Ok(x) => x,
        Err(e) => {
            return Err(e);
        },
    };
    let mut g3 = g2;
    fill_missing_ans(&mut g3);
    let g4 = parse_functions(&g3);
    let g5 = parse_unary(&g4);
    let g6 = parse_binary(&g5);
    Ok(Node::Exp(g6))
}

} // verus!
