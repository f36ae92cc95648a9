//! The AST: a tree of `Node`s, each a tag plus an ordered list of children.
//! Child positions are tag-specific. `NodeM` is the spec-level image of a
//! node, with strings as character sequences and children as a `Seq`.
use vstd::prelude::*;

verus! {

/// Binary and unary operators of the source language.
#[derive(Clone, Copy, Debug, PartialEq, Eq, Structural)]
pub enum OpType {
    OpPlus,
    OpMinus,
    OpMul,
    OpDiv,
    OpMod,
    OpOr,
    OpAnd,
    OpNot,
    OpLs,
    OpGt,
    OpLsEq,
    OpGtEq,
    OpEq,
    OpNotEq,
}

/// The tag of an AST node. A number literal is carried as the opaque
/// 32-bit pattern of its value, never interpreted by the compiler.
#[derive(Debug)]
pub enum NodeType {
    Number(u32),
    Str(String),
    Symbol(String),
    Function,
    Call,
    Dict,
    Array,
    StmtVar,
    StmtIf,
    StmtIfElse,
    StmtWhile,
    StmtReturn,
    Member,
    Index,
    Op(OpType),
    Assign,
    Block,
    Empty,
}

/// One AST node: its tag and its children, in order.
#[derive(Debug)]
pub struct Node {
    pub type_: NodeType,
    pub body: Vec<Node>,
}

/// Spec-level node tag.
pub enum NodeTypeM {
    Number(u32),
    Str(Seq<char>),
    Symbol(Seq<char>),
    Function,
    Call,
    Dict,
    Array,
    StmtVar,
    StmtIf,
    StmtIfElse,
    StmtWhile,
    StmtReturn,
    Member,
    Index,
    Op(OpType),
    Assign,
    Block,
    Empty,
}

/// Spec-level node.
pub struct NodeM {
    pub kind: NodeTypeM,
    pub body: Seq<NodeM>,
}

/// The spec image of a node tag.
pub open spec fn type_m(t: NodeType) -> NodeTypeM {
    match t {
        NodeType::Number(b) => NodeTypeM::Number(b),
        NodeType::Str(s) => NodeTypeM::Str(s@),
        NodeType::Symbol(s) => NodeTypeM::Symbol(s@),
        NodeType::Function => NodeTypeM::Function,
        NodeType::Call => NodeTypeM::Call,
        NodeType::Dict => NodeTypeM::Dict,
        NodeType::Array => NodeTypeM::Array,
        NodeType::StmtVar => NodeTypeM::StmtVar,
        NodeType::StmtIf => NodeTypeM::StmtIf,
        NodeType::StmtIfElse => NodeTypeM::StmtIfElse,
        NodeType::StmtWhile => NodeTypeM::StmtWhile,
        NodeType::StmtReturn => NodeTypeM::StmtReturn,
        NodeType::Member => NodeTypeM::Member,
        NodeType::Index => NodeTypeM::Index,
        NodeType::Op(o) => NodeTypeM::Op(o),
        NodeType::Assign => NodeTypeM::Assign,
        NodeType::Block => NodeTypeM::Block,
        NodeType::Empty => NodeTypeM::Empty,
    }
}

/// The spec image of a node: the same tree over spec values.
#[verifier::opaque]
pub open spec fn node_m(n: Node) -> NodeM
    decreases n,
{
    NodeM {
        kind: type_m(n.type_),
        body: Seq::new(
            n.body.len() as nat,
            |k: int|
                if 0 <= k < n.body.len() {
                    node_m(n.body[k])
                } else {
                    arbitrary()
                },
        ),
    }
}

impl Node {
    /// A leaf node of the given tag.
    pub fn new(type_: NodeType) -> (r: Node)
        ensures
            node_m(r).kind == type_m(type_),
            node_m(r).body.len() == 0,
    {
        let r = Node { type_, body: Vec::new() };
        proof {
            reveal(node_m);
            assert(node_m(r).body =~= Seq::<NodeM>::empty());
        }
        r
    }

    /// Append `child` as the last child.
    pub fn push_child(&mut self, child: Node)
        ensures
            node_m(*final(self)) == (NodeM {
                kind: node_m(*old(self)).kind,
                body: node_m(*old(self)).body.push(node_m(child)),
            }),
    {
        self.body.push(child);
        proof {
            reveal(node_m);
            assert(node_m(*self).body =~= node_m(*old(self)).body.push(node_m(child)));
            assert(node_m(*self) == (NodeM {
                kind: node_m(*old(self)).kind,
                body: node_m(*old(self)).body.push(node_m(child)),
            }));
        }
    }
}

/// A node with no children.
pub fn node0(t: NodeType) -> (r: Node)
    ensures
        node_m(r) == (NodeM { kind: type_m(t), body: Seq::<NodeM>::empty() }),
{
    let r = Node { type_: t, body: Vec::new() };
    proof {
        reveal(node_m);
        assert(r.body@.len() == 0);
        assert(node_m(r).body =~= Seq::<NodeM>::empty());
        assert(node_m(r) == (NodeM { kind: type_m(r.type_), body: Seq::<NodeM>::empty() }));
    }
    r
}

/// A node with one child.
pub fn node1(t: NodeType, a: Node) -> (r: Node)
    ensures
        node_m(r) == (NodeM { kind: type_m(t), body: seq![node_m(a)] }),
{
    let ghost ghost_t = t;
    let ghost ghost_a = a;
    let mut body: Vec<Node> = Vec::new();
    body.push(a);
    let r = Node { type_: t, body };
    proof {
        reveal(node_m);
        assert(node_m(r).body =~= seq![node_m(ghost_a)]);
        assert(node_m(r) == (NodeM { kind: type_m(ghost_t), body: seq![node_m(ghost_a)] }));
    }
    r
}

/// A node with two children.
pub fn node2(t: NodeType, a: Node, b: Node) -> (r: Node)
    ensures
        node_m(r) == (NodeM { kind: type_m(t), body: seq![node_m(a), node_m(b)] }),
{
    let ghost ghost_t = t;
    let ghost ghost_a = a;
    let ghost ghost_b = b;
    let mut body: Vec<Node> = Vec::new();
    body.push(a);
    body.push(b);
    let r = Node { type_: t, body };
    proof {
        reveal(node_m);
        assert(node_m(r).body =~= seq![node_m(ghost_a), node_m(ghost_b)]);
        assert(node_m(r) == (NodeM {
            kind: type_m(ghost_t),
            body: seq![node_m(ghost_a), node_m(ghost_b)],
        }));
    }
    r
}

/// A node with three children.
pub fn node3(t: NodeType, a: Node, b: Node, c: Node) -> (r: Node)
    ensures
        node_m(r) == (NodeM { kind: type_m(t), body: seq![node_m(a), node_m(b), node_m(c)] }),
{
    let ghost ghost_t = t;
    let ghost ghost_a = a;
    let ghost ghost_b = b;
    let ghost ghost_c = c;
    let mut body: Vec<Node> = Vec::new();
    body.push(a);
    body.push(b);
    body.push(c);
    let r = Node { type_: t, body };
    proof {
        reveal(node_m);
        assert(node_m(r).body =~= seq![node_m(ghost_a), node_m(ghost_b), node_m(ghost_c)]);
        assert(node_m(r) == (NodeM {
            kind: type_m(ghost_t),
            body: seq![node_m(ghost_a), node_m(ghost_b), node_m(ghost_c)],
        }));
    }
    r
}

} // verus!
