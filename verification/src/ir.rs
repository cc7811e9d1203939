//! The lowered intermediate representation and the transform that produces
//! it: a pure, total, structure-preserving rename of the parse tree.

use vstd::prelude::*;
use crate::ast::BinaryOpV;
use crate::ast::Node;
use crate::ast::NodeV;
use crate::ast::node_view;
use crate::ast::node_views;
use crate::lexer::SpecToken;
use crate::lexer::Token;

verus! {

/// A lowered node, structurally parallel to the parse tree: `Constant` for
/// a number, `Variable` for an identifier, `BinaryExpression` for a binary
/// operation.
#[derive(Debug, PartialEq)]
pub enum IrNode {
    Constant(i64),
    Variable(String),
    BinaryExpression(Box<BinaryExpression>),
}

/// A lowered binary expression: both lowered operands and the original
/// operator token.
#[derive(Debug, PartialEq)]
pub struct BinaryExpression {
    pub left: IrNode,
    pub operator: Token,
    pub right: IrNode,
}

/// The mathematical value of a lowered node.
#[verifier::ext_equal]
pub ghost enum IrNodeV {
    Constant(i64),
    Variable(Seq<char>),
    BinaryExpression(Box<BinaryExpressionV>),
}

/// The mathematical value of a lowered binary expression.
#[verifier::ext_equal]
pub ghost struct BinaryExpressionV {
    pub left: IrNodeV,
    pub operator: SpecToken,
    pub right: IrNodeV,
}

/// The mathematical value of lowered node `n`.
pub open spec fn ir_node_view(n: IrNode) -> IrNodeV
    decreases n,
{
    match n {
        IrNode::Constant(v) => IrNodeV::Constant(v),
        IrNode::Variable(s) => IrNodeV::Variable(s@),
        IrNode::BinaryExpression(b) => IrNodeV::BinaryExpression(
            Box::new(
                BinaryExpressionV {
                    left: ir_node_view(b.left),
                    operator: b.operator@,
                    right: ir_node_view(b.right),
                },
            ),
        ),
    }
}

impl View for IrNode {
    type V = IrNodeV;

    open spec fn view(&self) -> IrNodeV {
        ir_node_view(*self)
    }
}

impl View for BinaryExpression {
    type V = BinaryExpressionV;

    open spec fn view(&self) -> BinaryExpressionV {
        BinaryExpressionV {
            left: ir_node_view(self.left),
            operator: self.operator@,
            right: ir_node_view(self.right),
        }
    }
}

/// The mathematical values of a sequence of lowered nodes.
pub open spec fn ir_node_views(ns: Seq<IrNode>) -> Seq<IrNodeV> {
    ns.map_values(|n: IrNode| ir_node_view(n))
}

/// The lowering of one parse-tree value: `Number` becomes `Constant`,
/// `Ident` becomes `Variable`, and a binary operation is lowered in both
/// operands with its operator kept, dropping and reordering nothing.
pub open spec fn lower_node(n: NodeV) -> IrNodeV
    decreases n,
{
    match n {
        NodeV::Number(v) => IrNodeV::Constant(v),
        NodeV::Ident(s) => IrNodeV::Variable(s),
        NodeV::BinaryOp(b) => IrNodeV::BinaryExpression(
            Box::new(
                BinaryExpressionV {
                    left: lower_node(b.left),
                    operator: b.operator,
                    right: lower_node(b.right),
                },
            ),
        ),
    }
}

/// The elementwise lowering of a sequence of parse-tree values.
pub open spec fn lower_nodes(ns: Seq<NodeV>) -> Seq<IrNodeV> {
    ns.map_values(|n: NodeV| lower_node(n))
}

/// The shape of a tree: its branching structure together with the operator
/// token at each branch, with every leaf collapsed to a point.
pub ghost enum TreeShape {
    Leaf,
    Branch { operator: SpecToken, left: Box<TreeShape>, right: Box<TreeShape> },
}

/// The shape of a parse-tree value.
pub open spec fn node_shape(n: NodeV) -> TreeShape
    decreases n,
{
    match n {
        NodeV::Number(_) => TreeShape::Leaf,
        NodeV::Ident(_) => TreeShape::Leaf,
        NodeV::BinaryOp(b) => TreeShape::Branch {
            operator: b.operator,
            left: Box::new(node_shape(b.left)),
            right: Box::new(node_shape(b.right)),
        },
    }
}

/// The shape of a lowered value.
pub open spec fn ir_shape(n: IrNodeV) -> TreeShape
    decreases n,
{
    match n {
        IrNodeV::Constant(_) => TreeShape::Leaf,
        IrNodeV::Variable(_) => TreeShape::Leaf,
        IrNodeV::BinaryExpression(b) => TreeShape::Branch {
            operator: b.operator,
            left: Box::new(ir_shape(b.left)),
            right: Box::new(ir_shape(b.right)),
        },
    }
}

/// Lowering preserves structure: for every parse-tree value, the lowered
/// value has exactly the same shape, branching structure and operator
/// sequence alike; only the leaves are renamed, `Number` to `Constant` and
/// `Ident` to `Variable`, as `lower_node` itself spells out.
pub proof fn lemma_lower_preserves_shape(n: NodeV)
    ensures
        ir_shape(lower_node(n)) == node_shape(n),
    decreases n,
{
    match n {
        NodeV::Number(_) => {
        },
        NodeV::Ident(_) => {
        },
        NodeV::BinaryOp(b) => {
            lemma_lower_preserves_shape(b.left);
            lemma_lower_preserves_shape(b.right);
        },
    }
}

/// Lowers one parse-tree node, recursing through both operand subtrees.
fn convert_node(node: Node) -> (r: IrNode)
    ensures
        r@ == lower_node(node@),
    decreases node,
{
    match node {
        Node::Number(n) => IrNode::Constant(n),
        Node::Ident(id) => IrNode::Variable(id),
        Node::BinaryOp(b) => {
            let bo = *b;
            let left = convert_node(bo.left);
            let right = convert_node(bo.right);
            IrNode::BinaryExpression(
                Box::new(BinaryExpression { left, operator: bo.operator, right }),
            )
        },
    }
}

/// Lowers every parse-tree node, in order: the result is exactly the
/// elementwise `lower_node` of the input.
pub fn convert_to_ir(ast_nodes: Vec<Node>) -> (r: Vec<IrNode>)
    ensures
        ir_node_views(r@) == lower_nodes(node_views(ast_nodes@)),
{
    let ghost orig = ast_nodes@;
    let mut rest = ast_nodes;
    let mut out: Vec<IrNode> = Vec::new();
    proof {
        assert(ir_node_views(out@) + lower_nodes(node_views(rest@)) =~= lower_nodes(
            node_views(orig),
        ));
    }
    while rest.len() > 0
        invariant
            ir_node_views(out@) + lower_nodes(node_views(rest@)) == lower_nodes(node_views(orig)),
        decreases rest@.len(),
    {
        let ghost out0 = out@;
        let ghost rest0 = rest@;
        let node = rest.remove(0);
        let lowered = convert_node(node);
        out.push(lowered);
        proof {
            assert(node_views(rest@) =~= node_views(rest0).skip(1));
            assert(lower_nodes(node_views(rest0).skip(1)) =~= lower_nodes(node_views(rest0)).skip(
                1,
            ));
            assert(ir_node_views(out@) =~= ir_node_views(out0).push(lowered@));
            assert(lower_nodes(node_views(rest0))[0] == lowered@);
            assert(ir_node_views(out@) + lower_nodes(node_views(rest@)) =~= ir_node_views(out0)
                + lower_nodes(node_views(rest0)));
        }
    }
    proof {
        assert(lower_nodes(node_views(rest@)) =~= Seq::<IrNodeV>::empty());
        assert(ir_node_views(out@) + Seq::<IrNodeV>::empty() =~= ir_node_views(out@));
    }
    out
}

} // verus!
