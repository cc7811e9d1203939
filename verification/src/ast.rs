//! The parse-tree node shapes the parser produces: leaf values and binary
//! operation trees, each with a mathematical view.

use vstd::prelude::*;
use crate::lexer::SpecToken;
use crate::lexer::Token;

verus! {

/// A parse-tree node: a number, an identifier, or a binary operation over
/// two subtrees.
#[derive(Debug, PartialEq)]
pub enum Node {
    Number(i64),
    Ident(String),
    BinaryOp(Box<BinaryOp>),
}

/// A binary operation. `operator` keeps the full originating token, not just
/// its kind; the node owns both operand subtrees.
#[derive(Debug, PartialEq)]
pub struct BinaryOp {
    pub left: Node,
    pub operator: Token,
    pub right: Node,
}

/// The mathematical value of a parse-tree node.
#[verifier::ext_equal]
pub ghost enum NodeV {
    Number(i64),
    Ident(Seq<char>),
    BinaryOp(Box<BinaryOpV>),
}

/// The mathematical value of a binary operation node.
#[verifier::ext_equal]
pub ghost struct BinaryOpV {
    pub left: NodeV,
    pub operator: SpecToken,
    pub right: NodeV,
}

/// The mathematical value of `n`: the same tree over character sequences and
/// token values.
pub open spec fn node_view(n: Node) -> NodeV
    decreases n,
{
    match n {
        Node::Number(v) => NodeV::Number(v),
        Node::Ident(s) => NodeV::Ident(s@),
        Node::BinaryOp(b) => NodeV::BinaryOp(
            Box::new(
                BinaryOpV {
                    left: node_view(b.left),
                    operator: b.operator@,
                    right: node_view(b.right),
                },
            ),
        ),
    }
}

impl View for Node {
    type V = NodeV;

    open spec fn view(&self) -> NodeV {
        node_view(*self)
    }
}

impl View for BinaryOp {
    type V = BinaryOpV;

    open spec fn view(&self) -> BinaryOpV {
        BinaryOpV {
            left: node_view(self.left),
            operator: self.operator@,
            right: node_view(self.right),
        }
    }
}

/// The mathematical values of a sequence of parse-tree nodes.
pub open spec fn node_views(ns: Seq<Node>) -> Seq<NodeV> {
    ns.map_values(|n: Node| node_view(n))
}

} // verus!
