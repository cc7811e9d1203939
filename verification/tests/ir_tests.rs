use rusttc::ast::BinaryOp;
use rusttc::ast::Node;
use rusttc::ir::convert_to_ir;
use rusttc::ir::BinaryExpression;
use rusttc::ir::IrNode;
use rusttc::lexer::Token;
use rusttc::lexer::TokenKind;

#[test]
fn test_convert_constant() {
    let ast_nodes = vec![Node::Number(42)];
    let ir_nodes = convert_to_ir(ast_nodes);
    assert_eq!(ir_nodes, vec![IrNode::Constant(42)]);
}

#[test]
fn test_convert_variable() {
    let ast_nodes = vec![Node::Ident("x".to_string())];
    let ir_nodes = convert_to_ir(ast_nodes);
    assert_eq!(ir_nodes, vec![IrNode::Variable("x".to_string())]);
}

#[test]
fn test_convert_binary_expression() {
    let ast_nodes = vec![Node::BinaryOp(Box::new(BinaryOp {
        left: Node::Number(2),
        operator: Token::new(TokenKind::Plus, "+".to_string()),
        right: Node::Number(3),
    }))];
    let ir_nodes = convert_to_ir(ast_nodes);
    assert_eq!(
        ir_nodes,
        vec![IrNode::BinaryExpression(Box::new(BinaryExpression {
            left: IrNode::Constant(2),
            operator: Token::new(TokenKind::Plus, "+".to_string()),
            right: IrNode::Constant(3),
        }))]
    );
}

#[test]
fn test_convert_preserves_nested_shape() {
    // Lowering a nested tree keeps the branching structure and the operator
    // sequence; only the leaves are renamed.
    let ast_nodes = vec![Node::BinaryOp(Box::new(BinaryOp {
        left: Node::BinaryOp(Box::new(BinaryOp {
            left: Node::Ident("x".to_string()),
            operator: Token::new(TokenKind::Star, "*".to_string()),
            right: Node::Number(5),
        })),
        operator: Token::new(TokenKind::Minus, "-".to_string()),
        right: Node::Number(3),
    }))];
    let ir_nodes = convert_to_ir(ast_nodes);
    assert_eq!(
        ir_nodes,
        vec![IrNode::BinaryExpression(Box::new(BinaryExpression {
            left: IrNode::BinaryExpression(Box::new(BinaryExpression {
                left: IrNode::Variable("x".to_string()),
                operator: Token::new(TokenKind::Star, "*".to_string()),
                right: IrNode::Constant(5),
            })),
            operator: Token::new(TokenKind::Minus, "-".to_string()),
            right: IrNode::Constant(3),
        }))]
    );
}

#[test]
fn test_convert_keeps_order() {
    let ast_nodes = vec![Node::Number(1), Node::Ident("y".to_string()), Node::Number(2)];
    let ir_nodes = convert_to_ir(ast_nodes);
    assert_eq!(
        ir_nodes,
        vec![
            IrNode::Constant(1),
            IrNode::Variable("y".to_string()),
            IrNode::Constant(2),
        ]
    );
}
