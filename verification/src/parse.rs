use vstd::prelude::*;
use crate::ast::{
    AssignTarget, BinaryOperator, Expression, Program, RealVar, Statement, UnaryOperator, binary_operator_of,
    unary_operator_of, var_of,
};
use crate::token::{Token, TokenKind, TokenTag};

verus! {

// ---------------------------------------------------------------------------
// What the parser builds: a specification over the token sequence.
// ---------------------------------------------------------------------------

/// The outcome of parsing from some index: a panic, or a value and the index
/// where parsing stopped.
pub enum Parsed<T> {
    Panic,
    Done(T, int),
}

/// The binary operator levels, loosest first.
#[derive(Debug, Clone, Copy, PartialEq, Eq, Structural)]
pub enum Level {
    Or,
    Xor,
    And,
    Equality,
    Comparison,
    Term,
    Factor,
}

/// The token kinds that a level reads as its operators.
pub open spec fn level_ops(l: Level) -> Seq<TokenTag> {
    match l {
        Level::Or => seq![TokenTag::Or],
        Level::Xor => seq![TokenTag::Xor],
        Level::And => seq![TokenTag::And],
        Level::Equality => seq![TokenTag::Equal, TokenTag::BangEqual],
        Level::Comparison => seq![
            TokenTag::Greater,
            TokenTag::GreaterEqual,
            TokenTag::Less,
            TokenTag::LessEqual,
        ],
        Level::Term => seq![TokenTag::Minus, TokenTag::Plus],
        Level::Factor => seq![TokenTag::Slash, TokenTag::Star],
    }
}

/// The level whose expressions are the operands of level `l`.
pub open spec fn next_level(l: Level) -> Level {
    match l {
        Level::Or => Level::Xor,
        Level::Xor => Level::And,
        Level::And => Level::Equality,
        Level::Equality => Level::Comparison,
        Level::Comparison => Level::Term,
        _ => Level::Factor,
    }
}

/// An order on the parsing functions that read from the same index.
pub open spec fn rank(l: Level) -> int {
    match l {
        Level::Or => 30,
        Level::Xor => 27,
        Level::And => 24,
        Level::Equality => 21,
        Level::Comparison => 18,
        Level::Term => 15,
        Level::Factor => 12,
    }
}

/// Whether parsing has reached the end: past the last token, or at an end-of-input token.
pub open spec fn at_end(toks: Seq<Token>, i: int) -> bool {
    i >= toks.len() || toks[i].kind.tag() == TokenTag::EOF
}

/// The kind of the token at `i`.
pub open spec fn tag_at(toks: Seq<Token>, i: int) -> TokenTag {
    toks[i].kind.tag()
}

/// Whether the token at `i` is one of the given kinds (and not past the end).
pub open spec fn matches_at(toks: Seq<Token>, i: int, kinds: Seq<TokenTag>) -> bool {
    !at_end(toks, i) && kinds.contains(tag_at(toks, i))
}

/// An expression: an `Or` level expression.
pub open spec fn p_expr(toks: Seq<Token>, i: int) -> Parsed<Option<Expression>>
    decreases toks.len() - i, 40int,
{
    p_bin(toks, Level::Or, i)
}

/// An expression at level `l`: an operand, then operators of the level with their operands.
pub open spec fn p_bin(toks: Seq<Token>, l: Level, i: int) -> Parsed<Option<Expression>>
    decreases toks.len() - i, rank(l) + 2,
{
    if 0 <= i <= toks.len() {
        match p_operand(toks, l, i) {
            Parsed::Panic => Parsed::Panic,
            Parsed::Done(e, j) => if i <= j <= toks.len() {
                p_loop(toks, l, e, j)
            } else {
                Parsed::Panic
            },
        }
    } else {
        Parsed::Panic
    }
}

/// The rest of a level `l` expression whose left part `acc` was read up to `j`.
/// A missing operand on either side of an operator makes the parser panic.
pub open spec fn p_loop(toks: Seq<Token>, l: Level, acc: Option<Expression>, j: int) -> Parsed<
    Option<Expression>,
>
    decreases toks.len() - j, rank(l) + 1,
{
    if 0 <= j && matches_at(toks, j, level_ops(l)) {
        let op = binary_operator_of(tag_at(toks, j));
        match p_operand(toks, l, j + 1) {
            Parsed::Panic => Parsed::Panic,
            Parsed::Done(r, k) => if j + 1 <= k <= toks.len() {
                match (acc, r) {
                    (Some(a), Some(b)) => p_loop(
                        toks,
                        l,
                        Some(Expression::Binary { op, left: Box::new(a), right: Box::new(b) }),
                        k,
                    ),
                    _ => Parsed::Panic,
                }
            } else {
                Parsed::Panic
            },
        }
    } else {
        Parsed::Done(acc, j)
    }
}

/// An operand of level `l`.
pub open spec fn p_operand(toks: Seq<Token>, l: Level, i: int) -> Parsed<Option<Expression>>
    decreases toks.len() - i, rank(l),
{
    if l == Level::Factor {
        p_unary(toks, i)
    } else {
        p_bin(toks, next_level(l), i)
    }
}

/// A unary expression: `-` or `!` before a unary expression, or a primary one.
/// A missing operand makes the parser panic.
pub open spec fn p_unary(toks: Seq<Token>, i: int) -> Parsed<Option<Expression>>
    decreases toks.len() - i, 5int,
{
    if 0 <= i && matches_at(toks, i, seq![TokenTag::Minus, TokenTag::Bang]) {
        let op = unary_operator_of(tag_at(toks, i));
        match p_unary(toks, i + 1) {
            Parsed::Panic => Parsed::Panic,
            Parsed::Done(r, k) => match r {
                Some(e) => Parsed::Done(Some(Expression::Unary { op, operand: Box::new(e) }), k),
                None => Parsed::Panic,
            },
        }
    } else {
        p_primary(toks, i)
    }
}

/// Whether the token at `i` is of kind `t` (and not past the end).
pub open spec fn check_at(toks: Seq<Token>, i: int, t: TokenTag) -> bool {
    !at_end(toks, i) && tag_at(toks, i) == t
}

/// The expression that a variable token with letter `c` denotes: a real
/// variable for the letters `A` to `Y`; nothing otherwise.
pub open spec fn variable_expression(c: char) -> Option<Expression> {
    if 'A' <= c && c <= 'Y' {
        match var_of(c) {
            Some(v) => Some(Expression::RealVariable(v)),
            None => None,
        }
    } else {
        None
    }
}

/// A primary expression: a literal, a variable, or an expression in
/// parentheses. A missing `)` or a missing expression inside the parentheses
/// makes the parser panic; any other token gives nothing and is not read.
pub open spec fn p_primary(toks: Seq<Token>, i: int) -> Parsed<Option<Expression>>
    decreases toks.len() - i, 4int,
{
    if i < 0 || at_end(toks, i) {
        Parsed::Done(None, i)
    } else {
        match toks[i].kind {
            TokenKind::NumberLit(s) => Parsed::Done(Some(Expression::NumberLiteral(s)), i + 1),
            TokenKind::StringLit(s) => Parsed::Done(Some(Expression::StringLiteral(s)), i + 1),
            TokenKind::Var(c) => Parsed::Done(variable_expression(c), i + 1),
            TokenKind::LParen => match p_expr(toks, i + 1) {
                Parsed::Panic => Parsed::Panic,
                Parsed::Done(e, k) => if check_at(toks, k, TokenTag::RParen) {
                    match e {
                        Some(x) => Parsed::Done(Some(Expression::Grouping(Box::new(x))), k + 1),
                        None => Parsed::Panic,
                    }
                } else {
                    Parsed::Panic
                },
            },
            _ => Parsed::Done(None, i),
        }
    }
}

/// The target after a store arrow that was read up to `j`: a variable named by
/// the next token, or nothing. Gives the target and the index after it.
pub open spec fn p_target(toks: Seq<Token>, j: int) -> (Option<AssignTarget>, int) {
    let (t, k) = if !at_end(toks, j) {
        (toks[j], j + 1)
    } else {
        (toks[j - 1], j)
    };
    match t.kind {
        TokenKind::Var(c) => match var_of(c) {
            Some(v) => (Some(AssignTarget::RealVariable(v)), k),
            None => (None, k),
        },
        _ => (None, k),
    }
}

/// A statement: `Disp` with an optional expression and a newline (a panic
/// when the newline is missing); a blank line, which gives nothing; or an
/// expression, which gives an assignment when a store arrow and a target
/// follow, and nothing otherwise.
pub open spec fn p_statement(toks: Seq<Token>, i: int) -> Parsed<Option<Statement>> {
    if matches_at(toks, i, seq![TokenTag::Disp]) {
        match p_expr(toks, i + 1) {
            Parsed::Panic => Parsed::Panic,
            Parsed::Done(v, j) => if check_at(toks, j, TokenTag::Newline) {
                Parsed::Done(Some(Statement::Display(v)), j + 1)
            } else {
                Parsed::Panic
            },
        }
    } else if matches_at(toks, i, seq![TokenTag::Newline]) {
        Parsed::Done(None, i + 1)
    } else {
        match p_expr(toks, i) {
            Parsed::Panic => Parsed::Panic,
            Parsed::Done(e, j) => if matches_at(toks, j, seq![TokenTag::Arrow]) {
                let (target, k) = p_target(toks, j + 1);
                match (target, e) {
                    (Some(t), Some(x)) => Parsed::Done(
                        Some(Statement::Assign { target: t, source: x }),
                        k,
                    ),
                    _ => Parsed::Done(None, k),
                }
            } else {
                Parsed::Done(None, j)
            },
        }
    }
}

/// How parsing a whole program ends.
pub enum ProgramOutcome {
    /// The statements read.
    Parsed(Seq<Statement>),
    /// The parser panics.
    Panics,
    /// A statement reads no token, so the parser reads it again forever.
    Diverges,
}

/// The program read from index `i` on, after the statements `acc`.
pub open spec fn p_program(toks: Seq<Token>, i: int, acc: Seq<Statement>) -> ProgramOutcome
    decreases toks.len() - i,
{
    if i < 0 || at_end(toks, i) {
        ProgramOutcome::Parsed(acc)
    } else {
        match p_statement(toks, i) {
            Parsed::Panic => ProgramOutcome::Panics,
            Parsed::Done(s, j) => if j <= i {
                ProgramOutcome::Diverges
            } else if j > toks.len() {
                ProgramOutcome::Panics
            } else {
                p_program(
                    toks,
                    j,
                    match s {
                        Some(x) => acc.push(x),
                        None => acc,
                    },
                )
            },
        }
    }
}

/// The outcome of parsing all of `toks`.
pub open spec fn parse_spec(toks: Seq<Token>) -> ProgramOutcome {
    p_program(toks, 0, Seq::empty())
}

/// Whether a parsing function's result `r`, with the parser left at `idx`,
/// is the outcome `p`.
pub open spec fn agrees<T>(p: Parsed<T>, r: Result<T, ()>, idx: int) -> bool {
    match p {
        Parsed::Panic => r is Err,
        Parsed::Done(v, j) => r == Ok::<T, ()>(v) && idx == j,
    }
}

// ---------------------------------------------------------------------------
// The parser.
// ---------------------------------------------------------------------------

/// Why a program could not be parsed.
#[derive(Debug, Clone, Copy, PartialEq, Eq, Structural)]
pub enum ParseFailure {
    /// The parser would panic: a missing newline after `Disp`, a missing `)`,
    /// or an operator with a missing operand.
    Panicked,
    /// A statement reads no token, so the parser would read it again forever.
    Stuck,
}

/// The parser's state: the tokens, where reading stands, and the program read so far.
#[derive(Debug, Clone, PartialEq)]
pub struct Parser {
    tokens: Vec<Token>,
    index: usize,
    pub program_root: Program,
}

/// The parser's state as the contracts speak of it.
pub struct ParserView {
    pub tokens: Seq<Token>,
    pub index: int,
    pub statements: Seq<Statement>,
}

impl View for Parser {
    type V = ParserView;

    closed spec fn view(&self) -> ParserView {
        ParserView {
            tokens: self.tokens@,
            index: self.index as int,
            statements: self.program_root@,
        }
    }
}

/// The kinds that a level reads as its operators, as a vector.
fn level_tags(l: Level) -> (v: Vec<TokenTag>)
    ensures
        v@ == level_ops(l),
{
    match l {
        Level::Or => vec![TokenTag::Or],
        Level::Xor => vec![TokenTag::Xor],
        Level::And => vec![TokenTag::And],
        Level::Equality => vec![TokenTag::Equal, TokenTag::BangEqual],
        Level::Comparison => vec![
            TokenTag::Greater,
            TokenTag::GreaterEqual,
            TokenTag::Less,
            TokenTag::LessEqual,
        ],
        Level::Term => vec![TokenTag::Minus, TokenTag::Plus],
        Level::Factor => vec![TokenTag::Slash, TokenTag::Star],
    }
}

/// A sequence of one kind holds exactly that kind.
pub proof fn lemma_single_contains(t: TokenTag, x: TokenTag)
    ensures
        seq![t].contains(x) <==> x == t,
{
    if x == t {
        assert(seq![t][0] == x);
    }
}

/// A vector of one kind.
fn single(t: TokenTag) -> (v: Vec<TokenTag>)
    ensures
        v@ == seq![t],
{
    let mut v: Vec<TokenTag> = Vec::new();
    v.push(t);
    v
}

fn level_below(l: Level) -> (n: Level)
    ensures
        n == next_level(l),
{
    match l {
        Level::Or => Level::Xor,
        Level::Xor => Level::And,
        Level::And => Level::Equality,
        Level::Equality => Level::Comparison,
        Level::Comparison => Level::Term,
        _ => Level::Factor,
    }
}

impl Parser {
    pub fn new(tokens: Vec<Token>) -> (p: Self)
        ensures
            p@.tokens == tokens@,
            p@.index == 0,
            p@.statements == Seq::<Statement>::empty(),
    {
        Self { tokens: tokens, index: 0, program_root: Program::new() }
    }

    /// The program that `tokens` spell.
    pub fn parse(tokens: Vec<Token>) -> (p: Program)
        requires
            parse_spec(tokens@) is Parsed,
        ensures
            parse_spec(tokens@) == ProgramOutcome::Parsed(p@),
    {
        match Self::try_parse(tokens) {
            Ok(p) => p,
            Err(_) => Program::new(),
        }
    }

    /// The program that `tokens` spell, or why `parse` would not return one.
    pub fn try_parse(tokens: Vec<Token>) -> (r: Result<Program, ParseFailure>)
        ensures
            match parse_spec(tokens@) {
                ProgramOutcome::Parsed(s) => r matches Ok(p) && p@ == s,
                ProgramOutcome::Panics => r == Err::<Program, ParseFailure>(ParseFailure::Panicked),
                ProgramOutcome::Diverges => r == Err::<Program, ParseFailure>(ParseFailure::Stuck),
            },
    {
        let mut parser: Parser = Parser::new(tokens);
        match parser.parse_program() {
            Ok(()) => Ok(parser.program_root),
            Err(e) => Err(e),
        }
    }

    fn parse_program(&mut self) -> (r: Result<(), ParseFailure>)
        requires
            old(self).index <= old(self).tokens.len(),
        ensures
            final(self).tokens@ == old(self).tokens@,
            match p_program(old(self).tokens@, old(self).index as int, old(self).program_root@) {
                ProgramOutcome::Parsed(s) => r is Ok && final(self).program_root@ == s,
                ProgramOutcome::Panics => r == Err::<(), ParseFailure>(ParseFailure::Panicked),
                ProgramOutcome::Diverges => r == Err::<(), ParseFailure>(ParseFailure::Stuck),
            },
    {
        let ghost toks = self.tokens@;
        let ghost goal = p_program(toks, self.index as int, self.program_root@);
        while !self.is_at_end()
            invariant
                self.tokens@ == toks,
                toks == old(self).tokens@,
                goal == p_program(old(self).tokens@, old(self).index as int, old(self).program_root@),
                self.index <= toks.len(),
                goal == p_program(toks, self.index as int, self.program_root@),
            decreases toks.len() - self.index,
        {
            let before = self.index;
            let statement = match self.parse_statement() {
                Ok(s) => s,
                Err(()) => return Err(ParseFailure::Panicked),
            };
            if self.index <= before {
                return Err(ParseFailure::Stuck);
            }
            match statement {
                Some(stmt) => self.program_root.add_statement(stmt),
                None => {},
            }
        }
        Ok(())
    }

    fn parse_statement(&mut self) -> (r: Result<Option<Statement>, ()>)
        requires
            old(self).index <= old(self).tokens.len(),
        ensures
            final(self).tokens@ == old(self).tokens@,
            final(self).program_root == old(self).program_root,
            final(self).index <= final(self).tokens.len(),
            agrees(p_statement(old(self).tokens@, old(self).index as int), r, final(self).index as int),
    {
        if self.match_token(single(TokenTag::Disp)) {
            return self.parse_disp();
        }
        if self.match_token(single(TokenTag::Newline)) {
            return Ok(None);
        }
        let expr = match self.parse_expression() {
            Ok(e) => e,
            Err(()) => return Err(()),
        };
        if self.match_token(single(TokenTag::Arrow)) {
            match self.parse_assign_target() {
                Some(v) => match expr {
                    Some(e) => Ok(Some(Statement::Assign { target: v, source: e })),
                    None => Ok(None),
                },
                None => Ok(None),
            }
        } else {
            Ok(None)
        }
    }

    fn parse_disp(&mut self) -> (r: Result<Option<Statement>, ()>)
        requires
            old(self).index <= old(self).tokens.len(),
        ensures
            final(self).tokens@ == old(self).tokens@,
            final(self).program_root == old(self).program_root,
            final(self).index <= final(self).tokens.len(),
            match p_expr(old(self).tokens@, old(self).index as int) {
                Parsed::Panic => r is Err,
                Parsed::Done(v, j) => if check_at(old(self).tokens@, j, TokenTag::Newline) {
                    r == Ok::<Option<Statement>, ()>(Some(Statement::Display(v))) && final(self).index == j + 1
                } else {
                    r is Err
                },
            },
    {
        let value = match self.parse_expression() {
            Ok(v) => v,
            Err(()) => return Err(()),
        };
        match self.consume(TokenTag::Newline) {
            Ok(_) => Ok(Some(Statement::Display(value))),
            Err(()) => Err(()),
        }
    }

    fn parse_expression(&mut self) -> (r: Result<Option<Expression>, ()>)
        requires
            old(self).index <= old(self).tokens.len(),
        ensures
            final(self).tokens@ == old(self).tokens@,
            final(self).program_root == old(self).program_root,
            old(self).index <= final(self).index <= final(self).tokens.len(),
            agrees(p_expr(old(self).tokens@, old(self).index as int), r, final(self).index as int),
        decreases old(self).tokens@.len() - old(self).index, 40int,
    {
        self.parse_binary(Level::Or)
    }

    /// An expression at level `l`: its operands joined by its operators, left to right.
    fn parse_binary(&mut self, level: Level) -> (r: Result<Option<Expression>, ()>)
        requires
            old(self).index <= old(self).tokens.len(),
        ensures
            final(self).tokens@ == old(self).tokens@,
            final(self).program_root == old(self).program_root,
            old(self).index <= final(self).index <= final(self).tokens.len(),
            agrees(p_bin(old(self).tokens@, level, old(self).index as int), r, final(self).index as int),
        decreases old(self).tokens@.len() - old(self).index, rank(level) + 2,
    {
        let ghost toks = self.tokens@;
        let ghost i0 = self.index as int;
        let mut expr = match self.parse_operand(level) {
            Ok(e) => e,
            Err(()) => return Err(()),
        };
        loop
            invariant
                self.tokens@ == toks,
                self.program_root == old(self).program_root,
                toks == old(self).tokens@,
                i0 == old(self).index,
                i0 <= self.index <= toks.len(),
                p_bin(toks, level, i0) == p_loop(toks, level, expr, self.index as int),
            decreases toks.len() - self.index,
        {
            if !self.match_token(level_tags(level)) {
                return Ok(expr);
            }
            let operator = self.previous();
            let right = match self.parse_operand(level) {
                Ok(r) => r,
                Err(()) => return Err(()),
            };
            let left = expr;
            match (left, right) {
                (Some(a), Some(b)) => {
                    expr = Some(Expression::Binary {
                        op: BinaryOperator::from_token(operator.kind),
                        left: Box::new(a),
                        right: Box::new(b),
                    });
                },
                _ => return Err(()),
            }
        }
    }

    /// An operand of level `l`: an expression of the next level, or a unary one.
    fn parse_operand(&mut self, level: Level) -> (r: Result<Option<Expression>, ()>)
        requires
            old(self).index <= old(self).tokens.len(),
        ensures
            final(self).tokens@ == old(self).tokens@,
            final(self).program_root == old(self).program_root,
            old(self).index <= final(self).index <= final(self).tokens.len(),
            agrees(p_operand(old(self).tokens@, level, old(self).index as int), r, final(self).index as int),
        decreases old(self).tokens@.len() - old(self).index, rank(level),
    {
        if level == Level::Factor {
            self.parse_unary()
        } else {
            self.parse_binary(level_below(level))
        }
    }

    fn parse_unary(&mut self) -> (r: Result<Option<Expression>, ()>)
        requires
            old(self).index <= old(self).tokens.len(),
        ensures
            final(self).tokens@ == old(self).tokens@,
            final(self).program_root == old(self).program_root,
            old(self).index <= final(self).index <= final(self).tokens.len(),
            agrees(p_unary(old(self).tokens@, old(self).index as int), r, final(self).index as int),
        decreases old(self).tokens@.len() - old(self).index, 5int,
    {
        if self.match_token(vec![TokenTag::Minus, TokenTag::Bang]) {
            let operator = self.previous();
            let right = match self.parse_unary() {
                Ok(r) => r,
                Err(()) => return Err(()),
            };
            return match right {
                Some(e) => Ok(
                    Some(
                        Expression::Unary {
                            op: UnaryOperator::from_token(operator.kind),
                            operand: Box::new(e),
                        },
                    ),
                ),
                None => Err(()),
            };
        }
        self.parse_primary()
    }

    fn parse_primary(&mut self) -> (r: Result<Option<Expression>, ()>)
        requires
            old(self).index <= old(self).tokens.len(),
        ensures
            final(self).tokens@ == old(self).tokens@,
            final(self).program_root == old(self).program_root,
            old(self).index <= final(self).index <= final(self).tokens.len(),
            agrees(p_primary(old(self).tokens@, old(self).index as int), r, final(self).index as int),
        decreases old(self).tokens@.len() - old(self).index, 4int,
    {
        if self.match_token(single(TokenTag::NumberLit)) {
            return match self.previous().kind {
                TokenKind::NumberLit(val) => Ok(Some(Expression::NumberLiteral(val))),
                _ => Ok(None),
            };
        }
        if self.match_token(single(TokenTag::StringLit)) {
            return match self.previous().kind {
                TokenKind::StringLit(val) => Ok(Some(Expression::StringLiteral(val))),
                _ => Ok(None),
            };
        }
        if self.match_token(single(TokenTag::Var)) {
            return match self.previous().kind {
                TokenKind::Var(val) => if 'A' <= val && val <= 'Y' {
                    match RealVar::from_char(val) {
                        Some(var) => Ok(Some(Expression::RealVariable(var))),
                        None => Ok(None),
                    }
                } else {
                    Ok(None)
                },
                _ => Ok(None),
            };
        }
        if self.match_token(single(TokenTag::LParen)) {
            let expr = match self.parse_expression() {
                Ok(e) => e,
                Err(()) => return Err(()),
            };
            match self.consume(TokenTag::RParen) {
                Ok(_) => {},
                Err(()) => return Err(()),
            }
            return match expr {
                Some(e) => Ok(Some(Expression::Grouping(Box::new(e)))),
                None => Err(()),
            };
        }
        proof {
            if !at_end(self.tokens@, self.index as int) {
                let t = tag_at(self.tokens@, self.index as int);
                lemma_single_contains(TokenTag::NumberLit, t);
                lemma_single_contains(TokenTag::StringLit, t);
                lemma_single_contains(TokenTag::Var, t);
                lemma_single_contains(TokenTag::LParen, t);
            }
        }
        Ok(None)
    }

    /// The variable named by the token after a store arrow.
    fn parse_assign_target(&mut self) -> (r: Option<AssignTarget>)
        requires
            1 <= old(self).index <= old(self).tokens.len(),
        ensures
            final(self).tokens@ == old(self).tokens@,
            final(self).program_root == old(self).program_root,
            final(self).index <= final(self).tokens.len(),
            (r, final(self).index as int) == p_target(old(self).tokens@, old(self).index as int),
    {
        let target = self.advance();
        match target.kind {
            TokenKind::Var(c) => match RealVar::from_char(c) {
                Some(v) => Some(AssignTarget::RealVariable(v)),
                None => None,
            },
            _ => None,
        }
    }

    fn is_at_end(&self) -> (b: bool)
        ensures
            b == at_end(self.tokens@, self.index as int),
    {
        self.index >= self.tokens.len() || self.peek().kind.variant() == TokenTag::EOF
    }

    /// Reads a token of kind `kind`; an error where parsing stops with a panic.
    fn consume(&mut self, kind: TokenTag) -> (r: Result<Token, ()>)
        requires
            old(self).index <= old(self).tokens.len(),
        ensures
            final(self).tokens@ == old(self).tokens@,
            final(self).program_root == old(self).program_root,
            r is Ok <==> check_at(old(self).tokens@, old(self).index as int, kind),
            r is Ok ==> final(self).index == old(self).index + 1,
            old(self).index <= final(self).index <= final(self).tokens.len(),
    {
        if self.check(kind) {
            return Ok(self.advance());
        }
        Err(())
    }

    /// Reads the next token if it is of one of the given kinds.
    fn match_token(&mut self, kinds: Vec<TokenTag>) -> (b: bool)
        requires
            old(self).index <= old(self).tokens.len(),
        ensures
            final(self).tokens@ == old(self).tokens@,
            final(self).program_root == old(self).program_root,
            b == matches_at(old(self).tokens@, old(self).index as int, kinds@),
            b ==> final(self).index == old(self).index + 1,
            !b ==> final(self).index == old(self).index,
    {
        if self.is_at_end() {
            return false;
        }
        let current = self.peek().kind.variant();
        let mut i: usize = 0;
        while i < kinds.len()
            invariant
                i <= kinds.len(),
                self.tokens@ == old(self).tokens@,
                self.program_root == old(self).program_root,
                self.index == old(self).index,
                !at_end(self.tokens@, self.index as int),
                current == tag_at(self.tokens@, self.index as int),
                forall|j: int| 0 <= j < i ==> kinds@[j] != current,
            decreases kinds.len() - i,
        {
            if kinds[i] == current {
                self.advance();
                assert(kinds@[i as int] == current);
                return true;
            }
            i = i + 1;
        }
        false
    }

    fn check(&self, kind: TokenTag) -> (b: bool)
        ensures
            b == check_at(self.tokens@, self.index as int, kind),
    {
        if self.is_at_end() {
            return false;
        }
        self.peek().kind.variant() == kind
    }

    fn advance(&mut self) -> (t: Token)
        requires
            old(self).index <= old(self).tokens.len(),
            1 <= old(self).index || !at_end(old(self).tokens@, old(self).index as int),
        ensures
            final(self).tokens@ == old(self).tokens@,
            final(self).program_root == old(self).program_root,
            !at_end(old(self).tokens@, old(self).index as int) ==> final(self).index == old(self).index + 1,
            at_end(old(self).tokens@, old(self).index as int) ==> final(self).index == old(self).index,
            t == final(self).tokens@[final(self).index - 1],
    {
        if !self.is_at_end() {
            self.index = self.index + 1;
        }
        self.previous()
    }

    fn peek(&self) -> (t: &Token)
        requires
            self.index < self.tokens.len(),
        ensures
            *t == self.tokens@[self.index as int],
    {
        &self.tokens[self.index]
    }

    fn previous(&self) -> (t: Token)
        requires
            1 <= self.index <= self.tokens.len(),
        ensures
            t == self.tokens@[self.index - 1],
    {
        self.tokens[self.index - 1].duplicate()
    }
}

// ---------------------------------------------------------------------------
// Laws of the parser.
// ---------------------------------------------------------------------------

/// Whether a statement is one that the parser builds: a display or an assignment.
pub open spec fn is_simple_statement(s: Statement) -> bool {
    s is Display || s is Assign
}

proof fn lemma_statement_simple(toks: Seq<Token>, i: int)
    ensures
        p_statement(toks, i) matches Parsed::Done(Some(s), _) ==> is_simple_statement(s),
{
}

proof fn lemma_program_simple(toks: Seq<Token>, i: int, acc: Seq<Statement>)
    requires
        forall|a: int| 0 <= a < acc.len() ==> is_simple_statement(#[trigger] acc[a]),
    ensures
        p_program(toks, i, acc) matches ProgramOutcome::Parsed(ss) ==> forall|a: int|
            0 <= a < ss.len() ==> is_simple_statement(#[trigger] ss[a]),
    decreases toks.len() - i,
{
    if !(i < 0 || at_end(toks, i)) {
        lemma_statement_simple(toks, i);
        match p_statement(toks, i) {
            Parsed::Done(s, j) => if i < j <= toks.len() {
                match s {
                    Some(x) => {
                        let next = acc.push(x);
                        assert forall|a: int| 0 <= a < next.len() implies is_simple_statement(
                            #[trigger] next[a],
                        ) by {
                            if a < acc.len() {
                                assert(next[a] == acc[a]);
                            }
                        }
                        lemma_program_simple(toks, j, next);
                    },
                    None => lemma_program_simple(toks, j, acc),
                }
            },
            _ => {},
        }
    }
}

/// The level whose operators include the token kind `t`, if any.
pub open spec fn op_level(t: TokenTag) -> Option<Level> {
    match t {
        TokenTag::Or => Some(Level::Or),
        TokenTag::Xor => Some(Level::Xor),
        TokenTag::And => Some(Level::And),
        TokenTag::Equal | TokenTag::BangEqual => Some(Level::Equality),
        TokenTag::Greater | TokenTag::GreaterEqual | TokenTag::Less | TokenTag::LessEqual => Some(
            Level::Comparison,
        ),
        TokenTag::Minus | TokenTag::Plus => Some(Level::Term),
        TokenTag::Slash | TokenTag::Star => Some(Level::Factor),
        _ => None,
    }
}

/// Each operator token belongs to one level, the one `op_level` names.
proof fn lemma_level_ops_contains(l: Level, t: TokenTag)
    ensures
        level_ops(l).contains(t) <==> op_level(t) == Some(l),
{
    let s = level_ops(l);
    if op_level(t) == Some(l) {
        if s[0] == t {
        } else if s.len() > 1 && s[1] == t {
        } else if s.len() > 2 && s[2] == t {
        } else {
            assert(s[3] == t);
        }
    }
    if s.contains(t) {
        let k = choose|k: int| 0 <= k < s.len() && s[k] == t;
        assert(k == 0 || k == 1 || k == 2 || k == 3);
    }
}

/// Whether no level from `l` down to the tightest reads the token at `i` as an operator.
pub open spec fn no_operator_from(toks: Seq<Token>, l: Level, i: int) -> bool {
    forall|m: Level| rank(m) <= rank(l) ==> !matches_at(toks, i, #[trigger] level_ops(m))
}

proof fn lemma_unary_number(toks: Seq<Token>, i: int, a: String)
    requires
        0 <= i < toks.len(),
        toks[i].kind == TokenKind::NumberLit(a),
    ensures
        p_unary(toks, i) == Parsed::Done(Some(Expression::NumberLiteral(a)), i + 1),
{
    let s = seq![TokenTag::Minus, TokenTag::Bang];
    if s.contains(tag_at(toks, i)) {
        let k = choose|k: int| 0 <= k < s.len() && s[k] == tag_at(toks, i);
        assert(k == 0 || k == 1);
    }
    assert(tag_at(toks, i) == TokenTag::NumberLit);
    assert(!at_end(toks, i));
    assert(!matches_at(toks, i, s));
    assert(p_primary(toks, i) == Parsed::Done(Some(Expression::NumberLiteral(a)), i + 1));
}

/// A number literal followed by a token that no level from `l` down reads as
/// an operator is, at level `l`, just that number.
proof fn lemma_bin_number(toks: Seq<Token>, l: Level, i: int, a: String)
    requires
        0 <= i && i + 1 < toks.len(),
        toks[i].kind == TokenKind::NumberLit(a),
        no_operator_from(toks, l, i + 1),
    ensures
        p_bin(toks, l, i) == Parsed::Done(Some(Expression::NumberLiteral(a)), i + 1),
    decreases rank(l),
{
    lemma_unary_number(toks, i, a);
    if l != Level::Factor {
        let n = next_level(l);
        assert forall|m: Level| rank(m) <= rank(n) implies !matches_at(toks, i + 1, #[trigger] level_ops(m)) by {
            assert(rank(m) <= rank(l));
        }
        lemma_bin_number(toks, n, i, a);
    }
    assert(!matches_at(toks, i + 1, level_ops(l)));
}

/// An expression read at level `l0` is also what the looser level `l` reads,
/// when no level between them takes the token after it as an operator.
proof fn lemma_lift(toks: Seq<Token>, l0: Level, l: Level, i: int, e: Option<Expression>, k: int)
    requires
        0 <= i <= k <= toks.len(),
        p_bin(toks, l0, i) == Parsed::Done(e, k),
        rank(l0) <= rank(l),
        forall|m: Level| rank(l0) < rank(m) <= rank(l) ==> !matches_at(toks, k, #[trigger] level_ops(m)),
    ensures
        p_bin(toks, l, i) == Parsed::Done(e, k),
    decreases rank(l),
{
    if l != l0 {
        let n = next_level(l);
        lemma_lift(toks, l0, n, i, e, k);
        assert(!matches_at(toks, k, level_ops(l)));
    }
}

/// Whether the tokens at `i` are a number `a`, an operator of level `lo` and a
/// number `b`, followed by a token that no level from `lo` down takes as an operator.
pub open spec fn pair_at(toks: Seq<Token>, i: int, a: String, b: String, lo: Level) -> bool {
    &&& 0 <= i && i + 3 < toks.len()
    &&& toks[i].kind == TokenKind::NumberLit(a)
    &&& toks[i + 2].kind == TokenKind::NumberLit(b)
    &&& op_level(tag_at(toks, i + 1)) == Some(lo)
    &&& no_operator_from(toks, lo, i + 3)
}

/// The binary expression of two numbers, its operator given by a token kind.
pub open spec fn bin_of(t: TokenTag, x: Expression, y: Expression) -> Expression {
    Expression::Binary { op: binary_operator_of(t), left: Box::new(x), right: Box::new(y) }
}

/// Level `lo` reads a number, an operator of that level and a number as the operator on the two.
proof fn lemma_pair(toks: Seq<Token>, i: int, a: String, b: String, lo: Level)
    requires
        pair_at(toks, i, a, b, lo),
    ensures
        p_bin(toks, lo, i) == Parsed::Done(
            Some(bin_of(tag_at(toks, i + 1), Expression::NumberLiteral(a), Expression::NumberLiteral(b))),
            i + 3,
        ),
{
    let t = tag_at(toks, i + 1);
    lemma_level_ops_contains(lo, t);
    lemma_unary_number(toks, i, a);
    lemma_unary_number(toks, i + 2, b);
    if lo != Level::Factor {
        let n = next_level(lo);
        assert forall|m: Level| rank(m) <= rank(n) implies !matches_at(toks, i + 1, #[trigger] level_ops(m)) by {
            lemma_level_ops_contains(m, t);
        }
        lemma_bin_number(toks, n, i, a);
        lemma_bin_number(toks, n, i + 2, b);
    }
    let e = bin_of(t, Expression::NumberLiteral(a), Expression::NumberLiteral(b));
    assert(p_operand(toks, lo, i) == Parsed::Done(Some(Expression::NumberLiteral(a)), i + 1));
    assert(p_operand(toks, lo, i + 2) == Parsed::Done(Some(Expression::NumberLiteral(b)), i + 3));
    assert(matches_at(toks, i + 1, level_ops(lo)));
    assert(!matches_at(toks, i + 3, level_ops(lo)));
    assert(p_loop(toks, lo, Some(e), i + 3) == Parsed::Done(Some(e), i + 3));
    assert(p_loop(toks, lo, Some(Expression::NumberLiteral(a)), i + 1) == Parsed::Done(Some(e), i + 3));
}

/// What each binary operator token means: `+` adds, `-` subtracts, `*`
/// multiplies, `/` divides, `=` and `!=` test equality and inequality, `<`,
/// `<=`, `>` and `>=` compare, and `And`, `Or` and `Xor` are logical.
pub open spec fn operator_meaning(t: TokenKind) -> BinaryOperator {
    match t {
        TokenKind::Plus => BinaryOperator::Add,
        TokenKind::Minus => BinaryOperator::Sub,
        TokenKind::Star => BinaryOperator::Mul,
        TokenKind::Slash => BinaryOperator::Div,
        TokenKind::Equal => BinaryOperator::Equal,
        TokenKind::BangEqual => BinaryOperator::NotEqual,
        TokenKind::Less => BinaryOperator::Less,
        TokenKind::LessEqual => BinaryOperator::LessEqual,
        TokenKind::Greater => BinaryOperator::Greater,
        TokenKind::GreaterEqual => BinaryOperator::GreaterEqual,
        TokenKind::And => BinaryOperator::And,
        TokenKind::Or => BinaryOperator::Or,
        _ => BinaryOperator::Xor,
    }
}

/// How tightly each binary operator token binds, loosest first: `Or`, `Xor`,
/// `And`, then `=` and `!=`, then `<`, `<=`, `>` and `>=`, then `+` and `-`,
/// and tightest `*` and `/`.
pub open spec fn binding_strength(t: TokenKind) -> int {
    match t {
        TokenKind::Or => 1,
        TokenKind::Xor => 2,
        TokenKind::And => 3,
        TokenKind::Equal | TokenKind::BangEqual => 4,
        TokenKind::Greater | TokenKind::GreaterEqual | TokenKind::Less | TokenKind::LessEqual => 5,
        TokenKind::Minus | TokenKind::Plus => 6,
        _ => 7,
    }
}

/// Whether a token kind is a binary operator.
pub open spec fn is_binary_operator(t: TokenKind) -> bool {
    ||| t is Plus || t is Minus || t is Star || t is Slash
    ||| t is Equal || t is BangEqual
    ||| t is Less || t is LessEqual || t is Greater || t is GreaterEqual
    ||| t is And || t is Or || t is Xor
}

/// The level of an operator token, and its meaning, agree with the language's table.
proof fn lemma_operator_table(t: TokenKind)
    requires
        is_binary_operator(t),
    ensures
        op_level(t.tag()) is Some,
        binary_operator_of(t.tag()) == operator_meaning(t),
        forall|u: TokenKind| #[trigger] is_binary_operator(u) ==> (
            binding_strength(t) <= binding_strength(u) <==> rank(op_level(u.tag()).unwrap()) <= rank(op_level(t.tag()).unwrap())),
{
}

/// A display of two numbers joined by a binary operator reads as that
/// operator, in its meaning, applied to the two numbers in order.
pub proof fn lemma_parse_binary_display(toks: Seq<Token>, a: String, b: String)
    requires
        toks.len() == 6,
        toks[0].kind is Disp,
        toks[1].kind == TokenKind::NumberLit(a),
        is_binary_operator(toks[2].kind),
        toks[3].kind == TokenKind::NumberLit(b),
        toks[4].kind is Newline,
        toks[5].kind is EOF,
    ensures
        parse_spec(toks) == ProgramOutcome::Parsed(
            seq![
                Statement::Display(
                    Some(
                        Expression::Binary {
                            op: operator_meaning(toks[2].kind),
                            left: Box::new(Expression::NumberLiteral(a)),
                            right: Box::new(Expression::NumberLiteral(b)),
                        },
                    ),
                ),
            ],
        ),
{
    lemma_operator_table(toks[2].kind);
    let lo = op_level(tag_at(toks, 2)).unwrap();
    assert forall|m: Level| rank(m) <= rank(Level::Or) implies !matches_at(toks, 4, #[trigger] level_ops(m)) by {
        lemma_level_ops_contains(m, tag_at(toks, 4));
    }
    lemma_pair(toks, 1, a, b, lo);
    lemma_lift(toks, lo, Level::Or, 1, Some(bin_of(tag_at(toks, 2), Expression::NumberLiteral(a), Expression::NumberLiteral(b))), 4);
    lemma_single_contains(TokenTag::Disp, tag_at(toks, 0));
    let e = bin_of(tag_at(toks, 2), Expression::NumberLiteral(a), Expression::NumberLiteral(b));
    assert(p_statement(toks, 0) == Parsed::Done(Some(Statement::Display(Some(e))), 5));
    assert(p_program(toks, 5, seq![Statement::Display(Some(e))]) == ProgramOutcome::Parsed(
        seq![Statement::Display(Some(e))],
    ));
}

/// Whether `toks` hold `Disp`, three numbers `a`, `b`, `c` joined by two
/// binary operators, a newline and the end.
pub open spec fn three_numbers(toks: Seq<Token>, a: String, b: String, c: String) -> bool {
    &&& toks.len() == 8
    &&& toks[0].kind is Disp
    &&& toks[1].kind == TokenKind::NumberLit(a)
    &&& is_binary_operator(toks[2].kind)
    &&& toks[3].kind == TokenKind::NumberLit(b)
    &&& is_binary_operator(toks[4].kind)
    &&& toks[5].kind == TokenKind::NumberLit(c)
    &&& toks[6].kind is Newline
    &&& toks[7].kind is EOF
}

#[verifier::spinoff_prover]
proof fn lemma_three_right(toks: Seq<Token>, a: String, b: String, c: String)
    requires
        three_numbers(toks, a, b, c),
        rank(op_level(tag_at(toks, 4)).unwrap()) < rank(op_level(tag_at(toks, 2)).unwrap()),
    ensures
        p_bin(toks, Level::Or, 1) == Parsed::Done(
            Some(
                bin_of(
                    tag_at(toks, 2),
                    Expression::NumberLiteral(a),
                    bin_of(tag_at(toks, 4), Expression::NumberLiteral(b), Expression::NumberLiteral(c)),
                ),
            ),
            6,
        ),
{
    lemma_operator_table(toks[2].kind);
    lemma_operator_table(toks[4].kind);
    let t1 = tag_at(toks, 2);
    let t2 = tag_at(toks, 4);
    let l1 = op_level(t1).unwrap();
    let l2 = op_level(t2).unwrap();
    let (x, y, z) = (Expression::NumberLiteral(a), Expression::NumberLiteral(b), Expression::NumberLiteral(c));
    assert forall|m: Level| rank(m) <= rank(Level::Or) implies !matches_at(toks, 6, #[trigger] level_ops(m)) by {
        lemma_level_ops_contains(m, tag_at(toks, 6));
    }
    assert(pair_at(toks, 3, b, c, l2));
    lemma_pair(toks, 3, b, c, l2);
    let r = bin_of(t2, y, z);
    let n = next_level(l1);
    assert(l1 != Level::Factor);
    lemma_lift(toks, l2, n, 3, Some(r), 6);
    assert forall|m: Level| rank(m) <= rank(n) implies !matches_at(toks, 2, #[trigger] level_ops(m)) by {
        lemma_level_ops_contains(m, t1);
    }
    lemma_bin_number(toks, n, 1, a);
    lemma_level_ops_contains(l1, t1);
    let e = bin_of(t1, x, r);
    assert(p_loop(toks, l1, Some(e), 6) == Parsed::Done(Some(e), 6));
    assert(p_loop(toks, l1, Some(x), 2) == Parsed::Done(Some(e), 6));
    assert(p_bin(toks, l1, 1) == Parsed::Done(Some(e), 6));
    lemma_lift(toks, l1, Level::Or, 1, Some(e), 6);
}

#[verifier::spinoff_prover]
proof fn lemma_three_left(toks: Seq<Token>, a: String, b: String, c: String)
    requires
        three_numbers(toks, a, b, c),
        rank(op_level(tag_at(toks, 2)).unwrap()) < rank(op_level(tag_at(toks, 4)).unwrap()),
    ensures
        p_bin(toks, Level::Or, 1) == Parsed::Done(
            Some(
                bin_of(
                    tag_at(toks, 4),
                    bin_of(tag_at(toks, 2), Expression::NumberLiteral(a), Expression::NumberLiteral(b)),
                    Expression::NumberLiteral(c),
                ),
            ),
            6,
        ),
{
    lemma_operator_table(toks[2].kind);
    lemma_operator_table(toks[4].kind);
    let t1 = tag_at(toks, 2);
    let t2 = tag_at(toks, 4);
    let l1 = op_level(t1).unwrap();
    let l2 = op_level(t2).unwrap();
    let (x, y, z) = (Expression::NumberLiteral(a), Expression::NumberLiteral(b), Expression::NumberLiteral(c));
    assert forall|m: Level| rank(m) <= rank(Level::Or) implies !matches_at(toks, 6, #[trigger] level_ops(m)) by {
        lemma_level_ops_contains(m, tag_at(toks, 6));
    }
    assert forall|m: Level| rank(m) <= rank(Level::Or) implies (rank(m) != rank(l2) ==> !matches_at(toks, 4, #[trigger] level_ops(m))) by {
        lemma_level_ops_contains(m, t2);
    }
    lemma_pair(toks, 1, a, b, l1);
    let left = bin_of(t1, x, y);
    let n = next_level(l2);
    assert(l2 != Level::Factor);
    lemma_lift(toks, l1, n, 1, Some(left), 4);
    lemma_bin_number(toks, n, 5, c);
    lemma_level_ops_contains(l2, t2);
    let e = bin_of(t2, left, z);
    assert(p_operand(toks, l2, 5) == Parsed::Done(Some(z), 6));
    assert(matches_at(toks, 4, level_ops(l2)));
    assert(p_loop(toks, l2, Some(e), 6) == Parsed::Done(Some(e), 6));
    assert(p_loop(toks, l2, Some(left), 4) == Parsed::Done(Some(e), 6));
    assert(p_bin(toks, l2, 1) == Parsed::Done(Some(e), 6));
    lemma_lift(toks, l2, Level::Or, 1, Some(e), 6);
}

#[verifier::spinoff_prover]
proof fn lemma_three_same(toks: Seq<Token>, a: String, b: String, c: String)
    requires
        three_numbers(toks, a, b, c),
        op_level(tag_at(toks, 2)) == op_level(tag_at(toks, 4)),
    ensures
        p_bin(toks, Level::Or, 1) == Parsed::Done(
            Some(
                bin_of(
                    tag_at(toks, 4),
                    bin_of(tag_at(toks, 2), Expression::NumberLiteral(a), Expression::NumberLiteral(b)),
                    Expression::NumberLiteral(c),
                ),
            ),
            6,
        ),
{
    lemma_operator_table(toks[2].kind);
    lemma_operator_table(toks[4].kind);
    let t1 = tag_at(toks, 2);
    let t2 = tag_at(toks, 4);
    let l = op_level(t1).unwrap();
    let (x, y, z) = (Expression::NumberLiteral(a), Expression::NumberLiteral(b), Expression::NumberLiteral(c));
    assert forall|m: Level| rank(m) <= rank(Level::Or) implies !matches_at(toks, 6, #[trigger] level_ops(m)) by {
        lemma_level_ops_contains(m, tag_at(toks, 6));
    }
    lemma_level_ops_contains(l, t1);
    lemma_level_ops_contains(l, t2);
    lemma_unary_number(toks, 1, a);
    lemma_unary_number(toks, 3, b);
    lemma_unary_number(toks, 5, c);
    if l != Level::Factor {
        let n = next_level(l);
        assert forall|m: Level| rank(m) <= rank(n) implies !matches_at(toks, 2, #[trigger] level_ops(m)) by {
            lemma_level_ops_contains(m, t1);
        }
        assert forall|m: Level| rank(m) <= rank(n) implies !matches_at(toks, 4, #[trigger] level_ops(m)) by {
            lemma_level_ops_contains(m, t2);
        }
        lemma_bin_number(toks, n, 1, a);
        lemma_bin_number(toks, n, 3, b);
        lemma_bin_number(toks, n, 5, c);
    }
    let left = bin_of(t1, x, y);
    let e = bin_of(t2, left, z);
    assert(p_operand(toks, l, 1) == Parsed::Done(Some(x), 2));
    assert(p_operand(toks, l, 3) == Parsed::Done(Some(y), 4));
    assert(p_operand(toks, l, 5) == Parsed::Done(Some(z), 6));
    assert(p_loop(toks, l, Some(e), 6) == Parsed::Done(Some(e), 6));
    assert(p_loop(toks, l, Some(left), 4) == Parsed::Done(Some(e), 6));
    assert(p_loop(toks, l, Some(x), 2) == Parsed::Done(Some(e), 6));
    assert(p_bin(toks, l, 1) == Parsed::Done(Some(e), 6));
    lemma_lift(toks, l, Level::Or, 1, Some(e), 6);
}

/// Precedence and grouping: in a display of three numbers joined by two
/// binary operators, the operator that binds more tightly takes its two
/// neighbours first, and of two operators that bind equally tightly the left
/// one does: `a op1 b op2 c` is `(a op1 b) op2 c` unless `op2` binds more
/// tightly than `op1`, when it is `a op1 (b op2 c)`.
pub proof fn lemma_parse_precedence(toks: Seq<Token>, a: String, b: String, c: String)
    requires
        three_numbers(toks, a, b, c),
    ensures
        ({
            let (x, y, z) = (
                Expression::NumberLiteral(a),
                Expression::NumberLiteral(b),
                Expression::NumberLiteral(c),
            );
            let op1 = operator_meaning(toks[2].kind);
            let op2 = operator_meaning(toks[4].kind);
            let e = if binding_strength(toks[4].kind) > binding_strength(toks[2].kind) {
                Expression::Binary {
                    op: op1,
                    left: Box::new(x),
                    right: Box::new(Expression::Binary { op: op2, left: Box::new(y), right: Box::new(z) }),
                }
            } else {
                Expression::Binary {
                    op: op2,
                    left: Box::new(Expression::Binary { op: op1, left: Box::new(x), right: Box::new(y) }),
                    right: Box::new(z),
                }
            };
            parse_spec(toks) == ProgramOutcome::Parsed(seq![Statement::Display(Some(e))])
        }),
{
    lemma_operator_table(toks[2].kind);
    lemma_operator_table(toks[4].kind);
    assert(is_binary_operator(toks[4].kind));
    assert(is_binary_operator(toks[2].kind));
    let r1 = rank(op_level(tag_at(toks, 2)).unwrap());
    let r2 = rank(op_level(tag_at(toks, 4)).unwrap());
    let e: Expression;
    if r2 < r1 {
        lemma_three_right(toks, a, b, c);
        e = bin_of(
            tag_at(toks, 2),
            Expression::NumberLiteral(a),
            bin_of(tag_at(toks, 4), Expression::NumberLiteral(b), Expression::NumberLiteral(c)),
        );
    } else {
        if r1 < r2 {
            lemma_three_left(toks, a, b, c);
        } else {
            lemma_three_same(toks, a, b, c);
        }
        e = bin_of(
            tag_at(toks, 4),
            bin_of(tag_at(toks, 2), Expression::NumberLiteral(a), Expression::NumberLiteral(b)),
            Expression::NumberLiteral(c),
        );
    }
    lemma_single_contains(TokenTag::Disp, tag_at(toks, 0));
    assert(p_statement(toks, 0) == Parsed::Done(Some(Statement::Display(Some(e))), 7));
    assert(p_program(toks, 7, seq![Statement::Display(Some(e))]) == ProgramOutcome::Parsed(
        seq![Statement::Display(Some(e))],
    ));
}

/// A display of `-` or `!` before a number reads as the negation, or the
/// logical `Not`, of that number.
pub proof fn lemma_parse_unary_display(toks: Seq<Token>, a: String)
    requires
        toks.len() == 5,
        toks[0].kind is Disp,
        toks[1].kind is Minus || toks[1].kind is Bang,
        toks[2].kind == TokenKind::NumberLit(a),
        toks[3].kind is Newline,
        toks[4].kind is EOF,
    ensures
        parse_spec(toks) == ProgramOutcome::Parsed(
            seq![
                Statement::Display(
                    Some(
                        Expression::Unary {
                            op: if toks[1].kind is Minus { UnaryOperator::Negative } else { UnaryOperator::Not },
                            operand: Box::new(Expression::NumberLiteral(a)),
                        },
                    ),
                ),
            ],
        ),
{
    let t = tag_at(toks, 1);
    let e = Expression::Unary { op: unary_operator_of(t), operand: Box::new(Expression::NumberLiteral(a)) };
    lemma_unary_number(toks, 2, a);
    let s2 = seq![TokenTag::Minus, TokenTag::Bang];
    if t == TokenTag::Minus {
        assert(s2[0] == t);
    } else {
        assert(s2[1] == t);
    }
    assert(p_unary(toks, 1) == Parsed::Done(Some(e), 3));
    assert forall|m: Level| rank(m) <= rank(Level::Or) implies !matches_at(toks, 3, #[trigger] level_ops(m)) by {
        lemma_level_ops_contains(m, tag_at(toks, 3));
    }
    lemma_level_ops_contains(Level::Factor, tag_at(toks, 3));
    assert(p_bin(toks, Level::Factor, 1) == Parsed::Done(Some(e), 3));
    lemma_lift(toks, Level::Factor, Level::Or, 1, Some(e), 3);
    lemma_single_contains(TokenTag::Disp, tag_at(toks, 0));
    assert(p_statement(toks, 0) == Parsed::Done(Some(Statement::Display(Some(e))), 4));
    assert(p_program(toks, 4, seq![Statement::Display(Some(e))]) == ProgramOutcome::Parsed(
        seq![Statement::Display(Some(e))],
    ));
}

/// Every statement of a parsed program is a display or an assignment: the
/// parser builds no prompts, no `If` and no `For` statements.
pub proof fn lemma_parsed_statements_simple(toks: Seq<Token>)
    ensures
        parse_spec(toks) matches ProgramOutcome::Parsed(ss) ==> forall|a: int|
            0 <= a < ss.len() ==> is_simple_statement(#[trigger] ss[a]),
{
    lemma_program_simple(toks, 0, Seq::empty());
}

/// Parsing stops at an end-of-input token at the start: such tokens give the empty program.
pub proof fn lemma_parse_at_end(toks: Seq<Token>)
    requires
        toks.len() == 0 || toks[0].kind.tag() == TokenTag::EOF,
    ensures
        parse_spec(toks) == ProgramOutcome::Parsed(Seq::<Statement>::empty()),
{
}

/// Whether `a` and `b` hold the same tokens up to index `k`, where `a` has an
/// end-of-input token.
pub open spec fn agree_to_eof(a: Seq<Token>, b: Seq<Token>, k: int) -> bool {
    &&& 0 <= k < a.len()
    &&& k < b.len()
    &&& a[k].kind.tag() == TokenTag::EOF
    &&& forall|i: int| 0 <= i <= k ==> a[i] == b[i]
}

/// Whether two outcomes are equal and stop at or before index `k`.
pub open spec fn same_within<T>(p: Parsed<T>, q: Parsed<T>, i: int, k: int) -> bool {
    &&& p == q
    &&& p matches Parsed::Done(_, j) ==> i <= j <= k
}

proof fn lemma_expr_agree(a: Seq<Token>, b: Seq<Token>, k: int, i: int)
    requires
        agree_to_eof(a, b, k),
        0 <= i <= k,
    ensures
        same_within(p_expr(a, i), p_expr(b, i), i, k),
    decreases k - i, 40int,
{
    lemma_bin_agree(a, b, k, Level::Or, i);
}

proof fn lemma_bin_agree(a: Seq<Token>, b: Seq<Token>, k: int, l: Level, i: int)
    requires
        agree_to_eof(a, b, k),
        0 <= i <= k,
    ensures
        same_within(p_bin(a, l, i), p_bin(b, l, i), i, k),
    decreases k - i, rank(l) + 2,
{
    lemma_operand_agree(a, b, k, l, i);
    if let Parsed::Done(e, j) = p_operand(a, l, i) {
        lemma_loop_agree(a, b, k, l, e, j);
    }
}

proof fn lemma_loop_agree(a: Seq<Token>, b: Seq<Token>, k: int, l: Level, acc: Option<Expression>, j: int)
    requires
        agree_to_eof(a, b, k),
        0 <= j <= k,
    ensures
        same_within(p_loop(a, l, acc, j), p_loop(b, l, acc, j), j, k),
    decreases k - j, rank(l) + 1,
{
    if matches_at(a, j, level_ops(l)) {
        assert(j < k);
        lemma_operand_agree(a, b, k, l, j + 1);
        if let Parsed::Done(r, m) = p_operand(a, l, j + 1) {
            match (acc, r) {
                (Some(x), Some(y)) => lemma_loop_agree(
                    a,
                    b,
                    k,
                    l,
                    Some(Expression::Binary { op: binary_operator_of(tag_at(a, j)), left: Box::new(x), right: Box::new(y) }),
                    m,
                ),
                _ => {},
            }
        }
    }
}

proof fn lemma_operand_agree(a: Seq<Token>, b: Seq<Token>, k: int, l: Level, i: int)
    requires
        agree_to_eof(a, b, k),
        0 <= i <= k,
    ensures
        same_within(p_operand(a, l, i), p_operand(b, l, i), i, k),
    decreases k - i, rank(l),
{
    if l == Level::Factor {
        lemma_unary_agree(a, b, k, i);
    } else {
        lemma_bin_agree(a, b, k, next_level(l), i);
    }
}

proof fn lemma_unary_agree(a: Seq<Token>, b: Seq<Token>, k: int, i: int)
    requires
        agree_to_eof(a, b, k),
        0 <= i <= k,
    ensures
        same_within(p_unary(a, i), p_unary(b, i), i, k),
    decreases k - i, 5int,
{
    if matches_at(a, i, seq![TokenTag::Minus, TokenTag::Bang]) {
        assert(i < k);
        lemma_unary_agree(a, b, k, i + 1);
    } else {
        lemma_primary_agree(a, b, k, i);
    }
}

proof fn lemma_primary_agree(a: Seq<Token>, b: Seq<Token>, k: int, i: int)
    requires
        agree_to_eof(a, b, k),
        0 <= i <= k,
    ensures
        same_within(p_primary(a, i), p_primary(b, i), i, k),
    decreases k - i, 4int,
{
    if !at_end(a, i) {
        assert(i < k);
        if a[i].kind is LParen {
            lemma_expr_agree(a, b, k, i + 1);
        }
    }
}

proof fn lemma_statement_agree(a: Seq<Token>, b: Seq<Token>, k: int, i: int)
    requires
        agree_to_eof(a, b, k),
        0 <= i <= k,
    ensures
        same_within(p_statement(a, i), p_statement(b, i), i, k),
{
    if matches_at(a, i, seq![TokenTag::Disp]) {
        lemma_expr_agree(a, b, k, i + 1);
    } else if !matches_at(a, i, seq![TokenTag::Newline]) {
        lemma_expr_agree(a, b, k, i);
        if let Parsed::Done(e, j) = p_expr(a, i) {
            if matches_at(a, j, seq![TokenTag::Arrow]) {
                assert(j < k);
            }
        }
    }
}

proof fn lemma_program_agree(a: Seq<Token>, b: Seq<Token>, k: int, i: int, acc: Seq<Statement>)
    requires
        agree_to_eof(a, b, k),
        0 <= i <= k,
    ensures
        p_program(a, i, acc) == p_program(b, i, acc),
    decreases k - i,
{
    if !at_end(a, i) {
        lemma_statement_agree(a, b, k, i);
        if let Parsed::Done(s, j) = p_statement(a, i) {
            if i < j {
                lemma_program_agree(
                    a,
                    b,
                    k,
                    j,
                    match s {
                        Some(x) => acc.push(x),
                        None => acc,
                    },
                );
            }
        }
    }
}

/// The parser reads no further than the first end-of-input token: two token
/// sequences that agree up to an end-of-input token parse alike, whatever
/// follows it.
pub proof fn lemma_parse_stops_at_eof(a: Seq<Token>, b: Seq<Token>, k: int)
    requires
        agree_to_eof(a, b, k),
    ensures
        parse_spec(a) == parse_spec(b),
{
    lemma_program_agree(a, b, k, 0, Seq::empty());
}

} // verus!
