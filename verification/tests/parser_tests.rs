use basic_compiler::ast::{AssignTarget, BinaryOperator, Expression, RealVar, Statement, UnaryOperator};
use basic_compiler::lexer::Lexer;
use basic_compiler::parse::{ParseFailure, Parser};
use basic_compiler::span::{Position, Span};
use basic_compiler::token::{Token, TokenKind};

fn num(s: &str) -> Box<Expression> {
    Box::new(Expression::NumberLiteral(s.to_string()))
}

fn parse(source: &str) -> Vec<Statement> {
    Parser::parse(Lexer::lex(source)).get_statements()
}

fn token(kind: TokenKind) -> Token {
    let p = Position::new(1, 1, 0);
    Token::new(kind, Span::new(p, p))
}

#[test]
fn parses_display_with_precedence() {
    let statements = parse("Disp 1+2*3\n");
    assert_eq!(
        statements,
        vec![Statement::Display(Some(Expression::Binary {
            op: BinaryOperator::Add,
            left: num("1"),
            right: Box::new(Expression::Binary { op: BinaryOperator::Mul, left: num("2"), right: num("3") }),
        }))]
    );
}

#[test]
fn binary_operators_group_to_the_left() {
    let statements = parse("Disp 8-2-1\n");
    assert_eq!(
        statements,
        vec![Statement::Display(Some(Expression::Binary {
            op: BinaryOperator::Sub,
            left: Box::new(Expression::Binary { op: BinaryOperator::Sub, left: num("8"), right: num("2") }),
            right: num("1"),
        }))]
    );
}

#[test]
fn parses_logic_and_comparison_levels() {
    let statements = parse("Disp 1 Or 2 Xor 3 And 4=5<6\n");
    let cmp = Expression::Binary { op: BinaryOperator::Less, left: num("5"), right: num("6") };
    let eq = Expression::Binary { op: BinaryOperator::Equal, left: num("4"), right: Box::new(cmp) };
    let and = Expression::Binary { op: BinaryOperator::And, left: num("3"), right: Box::new(eq) };
    let xor = Expression::Binary { op: BinaryOperator::Xor, left: num("2"), right: Box::new(and) };
    let or = Expression::Binary { op: BinaryOperator::Or, left: num("1"), right: Box::new(xor) };
    assert_eq!(statements, vec![Statement::Display(Some(or))]);
}

#[test]
fn parses_assignment() {
    let statements = parse("5->A\n");
    assert_eq!(
        statements,
        vec![Statement::Assign { target: AssignTarget::RealVariable(RealVar::A), source: *num("5") }]
    );
}

#[test]
fn parses_grouping_unary_strings_and_variables() {
    let statements = parse("Disp -(B)\nDisp \"x\"\nDisp\n\n");
    assert_eq!(
        statements,
        vec![
            Statement::Display(Some(Expression::Unary {
                op: UnaryOperator::Negative,
                operand: Box::new(Expression::Grouping(Box::new(Expression::RealVariable(RealVar::B)))),
            })),
            Statement::Display(Some(Expression::StringLiteral("x".to_string()))),
            Statement::Display(None),
        ]
    );
}

#[test]
fn the_variable_z_is_not_read_as_an_operand() {
    assert_eq!(parse("Disp Z\n"), vec![Statement::Display(None)]);
    assert_eq!(
        parse("1->Z\n"),
        vec![Statement::Assign { target: AssignTarget::RealVariable(RealVar::Z), source: *num("1") }]
    );
}

#[test]
fn expressions_without_a_store_are_dropped() {
    assert_eq!(parse("1+2\n5->\n"), vec![]);
}

#[test]
fn parsing_stops_at_malformed_input() {
    let missing_newline = vec![token(TokenKind::Disp), token(TokenKind::NumberLit("1".to_string())), token(TokenKind::EOF)];
    assert_eq!(Parser::try_parse(missing_newline).err(), Some(ParseFailure::Panicked));
    assert_eq!(Parser::try_parse(Lexer::lex("Disp (1\n")).err(), Some(ParseFailure::Panicked));
    assert_eq!(Parser::try_parse(Lexer::lex("Disp 1+\n")).err(), Some(ParseFailure::Panicked));
    assert_eq!(Parser::try_parse(Lexer::lex("Disp -\n")).err(), Some(ParseFailure::Panicked));
    assert_eq!(Parser::try_parse(Lexer::lex("Disp ()\n")).err(), Some(ParseFailure::Panicked));
}

#[test]
fn parsing_reports_a_statement_that_reads_nothing() {
    assert_eq!(Parser::try_parse(Lexer::lex("If 1\n")).err(), Some(ParseFailure::Stuck));
}

#[test]
fn parsing_stops_at_the_end_token() {
    let tokens = vec![token(TokenKind::EOF), token(TokenKind::Disp)];
    assert_eq!(Parser::parse(tokens).get_statements(), vec![]);
    assert_eq!(Parser::parse(vec![]).get_statements(), vec![]);
}

#[test]
fn operators_from_tokens() {
    assert_eq!(BinaryOperator::from_token(TokenKind::Plus), BinaryOperator::Add);
    assert_eq!(BinaryOperator::from_token(TokenKind::GreaterEqual), BinaryOperator::GreaterEqual);
    assert_eq!(BinaryOperator::from_token(TokenKind::Xor), BinaryOperator::Xor);
    assert_eq!(BinaryOperator::from_token(TokenKind::Comma), BinaryOperator::NoOp);
    assert_eq!(UnaryOperator::from_token(TokenKind::Minus), UnaryOperator::Negative);
    assert_eq!(UnaryOperator::from_token(TokenKind::Bang), UnaryOperator::Not);
    assert_eq!(UnaryOperator::from_token(TokenKind::Plus), UnaryOperator::NoOp);
}

#[test]
fn variables_and_letters() {
    assert_eq!(RealVar::from_char('Q'), Some(RealVar::Q));
    assert_eq!(RealVar::from_char('q'), None);
    assert_eq!(RealVar::to_char(RealVar::Z), 'Z');
    for c in 'A'..='Z' {
        assert_eq!(RealVar::to_char(RealVar::from_char(c).unwrap()), c);
    }
}

#[test]
fn new_parser_and_program() {
    let parser = Parser::new(vec![token(TokenKind::EOF)]);
    assert_eq!(parser.program_root.get_statements(), vec![]);
}

#[test]
fn tokens_after_the_end_token_are_not_read() {
    let tokens = vec![
        token(TokenKind::Disp),
        token(TokenKind::Newline),
        token(TokenKind::EOF),
        token(TokenKind::Disp),
        token(TokenKind::LParen),
    ];
    assert_eq!(Parser::parse(tokens).get_statements(), vec![Statement::Display(None)]);
}

#[test]
fn clones_are_equal() {
    let program = Parser::parse(Lexer::lex("Disp (1+A)*2\n3->B\n"));
    let copy = program.clone();
    assert_eq!(copy, program);
    assert_eq!(copy.get_statements(), program.get_statements());
    let statement = program.get_statements()[0].clone();
    assert_eq!(statement, program.get_statements()[0]);
    let parser = Parser::new(Lexer::lex("Disp 1\n"));
    let parser_copy = parser.clone();
    assert_eq!(parser_copy, parser);
}
