use rsc_lang::ast::{Expression, InfixOp};
use rsc_lang::lexer::{LexError, Symbol};
use rsc_lang::parser::{ParseError, Parser, TokenKind};

fn parse_source(source: &str) -> Result<rsc_lang::ast::Block, ParseError> {
    let mut parser = Parser::new(source)?;
    parser.parse()
}

#[test]
fn ast() {
    let source = "print(a, b(c), d)";

    let mut parser = Parser::new(source).expect("lexing the first tokens failed");

    let block = parser.parse().expect("parse failed");
    assert_eq!(block.statements.len(), 1);

    let statement = &block.statements[0];

    if let Expression::Call(call) = statement {
        assert_eq!(call.callee, "print");
        assert_eq!(call.arguments.len(), 3);

        let arg2 = &call.arguments[1];

        if let Expression::Call(inner) = arg2 {
            assert_eq!(inner.callee, "b");
            assert_eq!(inner.arguments.len(), 1);
        }
    } else {
        panic!("Expected a Call expression");
    }
}

#[test]
fn call_disambiguation() {
    let block = parse_source("print(a, b(c), d)").expect("parse failed");
    assert_eq!(block.statements.len(), 1);
    let Expression::Call(call) = &block.statements[0] else {
        panic!("expected a call");
    };
    assert_eq!(call.callee, "print");
    assert_eq!(call.arguments.len(), 3);
    assert!(matches!(&call.arguments[0], Expression::Identifier(n) if n == "a"));
    let Expression::Call(inner) = &call.arguments[1] else {
        panic!("expected a nested call");
    };
    assert_eq!(inner.callee, "b");
    assert_eq!(inner.arguments.len(), 1);
    assert!(matches!(&inner.arguments[0], Expression::Identifier(n) if n == "c"));
    assert!(matches!(&call.arguments[2], Expression::Identifier(n) if n == "d"));
}

#[test]
fn top_level_bare_call() {
    let block = parse_source("print a, b").expect("parse failed");
    assert_eq!(block.statements.len(), 1);
    let Expression::Call(call) = &block.statements[0] else {
        panic!("expected a call");
    };
    assert_eq!(call.callee, "print");
    assert_eq!(call.arguments.len(), 2);
    assert!(matches!(&call.arguments[0], Expression::Identifier(n) if n == "a"));
    assert!(matches!(&call.arguments[1], Expression::Identifier(n) if n == "b"));
}

#[test]
fn nested_call_parens_required() {
    match parse_source("x = print a, b") {
        Err(ParseError::UnexpectedToken {
            expected: TokenKind::Symbol(Symbol::LParen),
            ..
        }) => {}
        other => panic!("expected a parenthesization syntax error, got {:?}", other),
    }
}

#[test]
fn if_else_block() {
    let block = parse_source("if a, x = 1. else, x = 2.").expect("parse failed");
    assert_eq!(block.statements.len(), 1);
    let Expression::If(if_expr) = &block.statements[0] else {
        panic!("expected an if");
    };
    assert!(matches!(&*if_expr.condition, Expression::Identifier(n) if n == "a"));

    assert_eq!(if_expr.then_block.statements.len(), 1);
    let Expression::Assignment(then_assign) = &if_expr.then_block.statements[0] else {
        panic!("expected an assignment in the then block");
    };
    assert_eq!(then_assign.identifier, "x");
    assert!(matches!(&*then_assign.value, Expression::Integer(1)));

    let else_block = if_expr.else_block.as_ref().expect("expected an else block");
    assert_eq!(else_block.statements.len(), 1);
    let Expression::Assignment(else_assign) = &else_block.statements[0] else {
        panic!("expected an assignment in the else block");
    };
    assert_eq!(else_assign.identifier, "x");
    assert!(matches!(&*else_assign.value, Expression::Integer(2)));
}

#[test]
fn assignment_of_literal() {
    let block = parse_source("x = 42").expect("parse failed");
    assert_eq!(block.statements.len(), 1);
    let Expression::Assignment(assign) = &block.statements[0] else {
        panic!("expected an assignment");
    };
    assert_eq!(assign.identifier, "x");
    assert!(matches!(&*assign.value, Expression::Integer(42)));
}

#[test]
fn assignment_of_float_text() {
    let block = parse_source("x = 2.5").expect("parse failed");
    let Expression::Assignment(assign) = &block.statements[0] else {
        panic!("expected an assignment");
    };
    assert!(matches!(&*assign.value, Expression::Float(t) if t == "2.5"));
}

#[test]
fn infix_precedence() {
    let block = parse_source("x = 1 + 2 * 3").expect("parse failed");
    let Expression::Assignment(assign) = &block.statements[0] else {
        panic!("expected an assignment");
    };
    let Expression::Infix(sum) = &*assign.value else {
        panic!("expected an infix sum");
    };
    assert_eq!(sum.operator, InfixOp::Plus);
    assert!(matches!(&*sum.left, Expression::Integer(1)));
    let Expression::Infix(product) = &*sum.right else {
        panic!("expected the product to bind tighter");
    };
    assert_eq!(product.operator, InfixOp::Star);
    assert!(matches!(&*product.left, Expression::Integer(2)));
    assert!(matches!(&*product.right, Expression::Integer(3)));
}

#[test]
fn infix_left_associative() {
    let block = parse_source("x = 9 - 2 - 3").expect("parse failed");
    let Expression::Assignment(assign) = &block.statements[0] else {
        panic!("expected an assignment");
    };
    let Expression::Infix(outer) = &*assign.value else {
        panic!("expected an infix difference");
    };
    assert_eq!(outer.operator, InfixOp::Minus);
    assert!(matches!(&*outer.right, Expression::Integer(3)));
    let Expression::Infix(inner) = &*outer.left else {
        panic!("expected a left-nested difference");
    };
    assert_eq!(inner.operator, InfixOp::Minus);
    assert!(matches!(&*inner.left, Expression::Integer(9)));
    assert!(matches!(&*inner.right, Expression::Integer(2)));
}

#[test]
fn comparison_binds_loosest() {
    let block = parse_source("x = a < b + 1").expect("parse failed");
    let Expression::Assignment(assign) = &block.statements[0] else {
        panic!("expected an assignment");
    };
    let Expression::Infix(cmp) = &*assign.value else {
        panic!("expected a comparison");
    };
    assert_eq!(cmp.operator, InfixOp::LessThan);
    assert!(matches!(&*cmp.left, Expression::Identifier(n) if n == "a"));
    assert!(matches!(&*cmp.right, Expression::Infix(_)));
}

#[test]
fn if_condition_is_nested_context() {
    // a call inside an if condition must be parenthesized
    match parse_source("if ok a, x = 1.") {
        Err(ParseError::UnexpectedToken {
            expected: TokenKind::Symbol(Symbol::LParen),
            ..
        }) => {}
        other => panic!("expected a parenthesization syntax error, got {:?}", other),
    }

    let block = parse_source("if ok(a), x = 1.").expect("parse failed");
    assert!(matches!(&block.statements[0], Expression::If(_)));
}

#[test]
fn expected_expression_error() {
    match parse_source(",") {
        Err(ParseError::ExpectedExpression { found, .. }) => {
            assert_eq!(found, TokenKind::Symbol(Symbol::Comma));
        }
        other => panic!("expected an expected-expression error, got {:?}", other),
    }
}

#[test]
fn lexical_error_surfaces() {
    match parse_source("x = 1.2.3") {
        Err(ParseError::Lexical(LexError::MalformedNumber { position })) => {
            assert_eq!(position.index, 4);
        }
        other => panic!("expected a lexical error, got {:?}", other),
    }
}

#[test]
fn empty_input_is_empty_block() {
    let block = parse_source("").expect("parse failed");
    assert_eq!(block.statements.len(), 0);
}

#[test]
fn empty_argument_list() {
    let block = parse_source("print()").expect("parse failed");
    let Expression::Call(call) = &block.statements[0] else {
        panic!("expected a call");
    };
    assert_eq!(call.callee, "print");
    assert_eq!(call.arguments.len(), 0);
}

#[test]
fn plain_identifier_is_not_a_call() {
    let block = parse_source("x = y").expect("parse failed");
    let Expression::Assignment(assign) = &block.statements[0] else {
        panic!("expected an assignment");
    };
    assert!(matches!(&*assign.value, Expression::Identifier(n) if n == "y"));
}

#[test]
fn map_operator_covers_operators_only() {
    assert_eq!(InfixOp::map_operator(Symbol::Plus), Some(InfixOp::Plus));
    assert_eq!(
        InfixOp::map_operator(Symbol::GreaterEquals),
        Some(InfixOp::GreaterEquals)
    );
    assert_eq!(InfixOp::map_operator(Symbol::Dot), None);
    assert_eq!(InfixOp::map_operator(Symbol::LParen), None);
    assert_eq!(InfixOp::map_operator(Symbol::Equals), None);
}

#[test]
fn trailing_comma_in_parenthesized_call() {
    let block = parse_source("print(a,)").expect("parse failed");
    let Expression::Call(call) = &block.statements[0] else {
        panic!("expected a call");
    };
    assert_eq!(call.arguments.len(), 1);
}

#[test]
fn missing_close_paren_is_an_error() {
    match parse_source("print(a") {
        Err(ParseError::UnexpectedToken {
            expected: TokenKind::Symbol(Symbol::RParen),
            found: TokenKind::EOF,
            ..
        }) => {}
        other => panic!("expected a missing-parenthesis error, got {:?}", other),
    }
}

#[test]
fn if_without_else() {
    let block = parse_source("if a, x = 1.").expect("parse failed");
    let Expression::If(if_expr) = &block.statements[0] else {
        panic!("expected an if");
    };
    assert_eq!(if_expr.then_block.statements.len(), 1);
    assert!(if_expr.else_block.is_none());
}

#[test]
fn missing_comma_after_if_condition() {
    match parse_source("if a. x = 1.") {
        Err(ParseError::UnexpectedToken {
            expected: TokenKind::Symbol(Symbol::Comma),
            ..
        }) => {}
        other => panic!("expected a missing-comma error, got {:?}", other),
    }
}

#[test]
fn lexical_error_in_first_tokens() {
    match parse_source("1.2.3") {
        Err(ParseError::Lexical(LexError::MalformedNumber { position })) => {
            assert_eq!(position.index, 0);
        }
        other => panic!("expected a lexical error, got {:?}", other),
    }
}

#[test]
fn single_leaf_statements() {
    let block = parse_source("42").expect("parse failed");
    assert_eq!(block.statements.len(), 1);
    assert!(matches!(&block.statements[0], Expression::Integer(42)));

    let block = parse_source("x").expect("parse failed");
    assert_eq!(block.statements.len(), 1);
    assert!(matches!(&block.statements[0], Expression::Identifier(n) if n == "x"));
}
