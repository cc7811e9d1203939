use rusttc::ir::convert_to_ir;
use rusttc::ir::BinaryExpression;
use rusttc::ir::IrNode;
use rusttc::lexer::tokenize;
use rusttc::lexer::Token;
use rusttc::lexer::TokenKind;
use rusttc::parser::parse;

#[test]
fn test_pipeline_end_to_end() {
    let tokens = tokenize("x*5-3");
    let nodes = parse(&tokens);
    let ir_nodes = convert_to_ir(nodes);
    assert_eq!(
        ir_nodes,
        vec![IrNode::BinaryExpression(Box::new(BinaryExpression {
            left: IrNode::BinaryExpression(Box::new(BinaryExpression {
                left: IrNode::Variable("x".to_string()),
                operator: Token::new(TokenKind::Star, "*".to_string()),
                right: IrNode::Constant(5),
            })),
            operator: Token::new(TokenKind::Minus, "-".to_string()),
            right: IrNode::Constant(3),
        }))]
    );
}

#[test]
fn test_pipeline_skips_comments_and_errors() {
    // The block comment and the error token are ignored by the parser; the
    // fold still sees 2 + 3.
    let tokens = tokenize("2/*note*/+3\u{00a7}");
    let nodes = parse(&tokens);
    let ir_nodes = convert_to_ir(nodes);
    assert_eq!(
        ir_nodes,
        vec![IrNode::BinaryExpression(Box::new(BinaryExpression {
            left: IrNode::Constant(2),
            operator: Token::new(TokenKind::Plus, "+".to_string()),
            right: IrNode::Constant(3),
        }))]
    );
}
