use vstd::prelude::*;
use crate::token::{TokenKind, TokenTag};

verus! {

/// A program: its statements in order.
#[derive(Debug, PartialEq)]
pub struct Program {
    statements: Vec<Statement>,
}

impl View for Program {
    type V = Seq<Statement>;

    closed spec fn view(&self) -> Seq<Statement> {
        self.statements@
    }
}

impl Program {
    pub fn new() -> (p: Self)
        ensures
            p@ == Seq::<Statement>::empty(),
    {
        Self { statements: Vec::new() }
    }

    pub fn add_statement(&mut self, statement: Statement)
        ensures
            final(self)@ == old(self)@.push(statement),
    {
        self.statements.push(statement);
    }

    /// A copy of the statements.
    pub fn get_statements(&self) -> (v: Vec<Statement>)
        ensures
            same_statements(v@, self@),
    {
        copy_statements(&self.statements)
    }

    /// The statements, without copying them.
    pub fn statements(&self) -> (v: &Vec<Statement>)
        ensures
            v@ == self@,
    {
        &self.statements
    }
}

#[derive(Debug, PartialEq)]
pub enum Statement {
    Display(Option<Expression>),
    Prompt(AssignTarget),
    Assign { target: AssignTarget, source: Expression },
    If { condition: Expression, consequence: Vec<Statement>, alternative: Vec<Statement> },
    For {
        variable: RealVar,
        min: Expression,
        max: Expression,
        step: Option<Expression>,
        body: Vec<Statement>,
    },
}

/// An expression. A number literal holds the text that denotes its value.
#[allow(inconsistent_fields)]
#[derive(Debug, PartialEq)]
pub enum Expression {
    Binary { op: BinaryOperator, left: Box<Expression>, right: Box<Expression> },
    Unary { op: UnaryOperator, operand: Box<Expression> },
    NumberLiteral(String),
    StringLiteral(String),
    RealVariable(RealVar),
    Grouping(Box<Expression>),
}

#[derive(Debug, Clone, Copy, PartialEq, Eq, Structural)]
pub enum BinaryOperator {
    Add,
    Sub,
    Mul,
    Div,
    Equal,
    NotEqual,
    Greater,
    Less,
    GreaterEqual,
    LessEqual,
    And,
    Or,
    Xor,
    NoOp,
}

/// The binary operator that a token of the given kind stands for.
pub open spec fn binary_operator_of(t: TokenTag) -> BinaryOperator {
    match t {
        TokenTag::Minus => BinaryOperator::Sub,
        TokenTag::Plus => BinaryOperator::Add,
        TokenTag::Slash => BinaryOperator::Div,
        TokenTag::Star => BinaryOperator::Mul,
        TokenTag::Equal => BinaryOperator::Equal,
        TokenTag::BangEqual => BinaryOperator::NotEqual,
        TokenTag::Less => BinaryOperator::Less,
        TokenTag::Greater => BinaryOperator::Greater,
        TokenTag::LessEqual => BinaryOperator::LessEqual,
        TokenTag::GreaterEqual => BinaryOperator::GreaterEqual,
        TokenTag::And => BinaryOperator::And,
        TokenTag::Or => BinaryOperator::Or,
        TokenTag::Xor => BinaryOperator::Xor,
        _ => BinaryOperator::NoOp,
    }
}

impl BinaryOperator {
    pub fn from_token(token: TokenKind) -> (op: BinaryOperator)
        ensures
            op == binary_operator_of(token.tag()),
    {
        match token {
            TokenKind::Minus => BinaryOperator::Sub,
            TokenKind::Plus => BinaryOperator::Add,
            TokenKind::Slash => BinaryOperator::Div,
            TokenKind::Star => BinaryOperator::Mul,
            TokenKind::Equal => BinaryOperator::Equal,
            TokenKind::BangEqual => BinaryOperator::NotEqual,
            TokenKind::Less => BinaryOperator::Less,
            TokenKind::Greater => BinaryOperator::Greater,
            TokenKind::LessEqual => BinaryOperator::LessEqual,
            TokenKind::GreaterEqual => BinaryOperator::GreaterEqual,
            TokenKind::And => BinaryOperator::And,
            TokenKind::Or => BinaryOperator::Or,
            TokenKind::Xor => BinaryOperator::Xor,
            _ => BinaryOperator::NoOp,
        }
    }
}

#[derive(Debug, Clone, Copy, PartialEq, Eq, Structural)]
pub enum UnaryOperator {
    Negative,
    Not,
    NoOp,
}

/// The unary operator that a token of the given kind stands for.
pub open spec fn unary_operator_of(t: TokenTag) -> UnaryOperator {
    match t {
        TokenTag::Minus => UnaryOperator::Negative,
        TokenTag::Bang => UnaryOperator::Not,
        _ => UnaryOperator::NoOp,
    }
}

impl UnaryOperator {
    pub fn from_token(token: TokenKind) -> (op: UnaryOperator)
        ensures
            op == unary_operator_of(token.tag()),
    {
        match token {
            TokenKind::Minus => UnaryOperator::Negative,
            TokenKind::Bang => UnaryOperator::Not,
            _ => UnaryOperator::NoOp,
        }
    }
}

/// The real variables, one for each capital letter.
#[derive(Debug, Clone, Copy, PartialEq, Eq, Structural)]
pub enum RealVar {
    A, B, C, D, E, F, G, H, I, J, K, L, M,
    N, O, P, Q, R, S, T, U, V, W, X, Y, Z,
}

/// The letter that names a real variable.
pub open spec fn letter_of(v: RealVar) -> char {
    match v {
            RealVar::A => 'A',
            RealVar::B => 'B',
            RealVar::C => 'C',
            RealVar::D => 'D',
            RealVar::E => 'E',
            RealVar::F => 'F',
            RealVar::G => 'G',
            RealVar::H => 'H',
            RealVar::I => 'I',
            RealVar::J => 'J',
            RealVar::K => 'K',
            RealVar::L => 'L',
            RealVar::M => 'M',
            RealVar::N => 'N',
            RealVar::O => 'O',
            RealVar::P => 'P',
            RealVar::Q => 'Q',
            RealVar::R => 'R',
            RealVar::S => 'S',
            RealVar::T => 'T',
            RealVar::U => 'U',
            RealVar::V => 'V',
            RealVar::W => 'W',
            RealVar::X => 'X',
            RealVar::Y => 'Y',
            RealVar::Z => 'Z',
    }
}

/// Whether `c` is a capital letter from `A` to `Z`.
pub open spec fn is_capital(c: char) -> bool {
    'A' <= c <= 'Z'
}

/// The variable named by the letter `c`, if `c` is a capital letter.
pub open spec fn var_of(c: char) -> Option<RealVar> {
    if is_capital(c) {
        Some(choose|v: RealVar| letter_of(v) == c)
    } else {
        None
    }
}

impl RealVar {
    /// The variable named by the letter `c`, if `c` is a capital letter.
    pub fn from_char(c: char) -> (r: Option<RealVar>)
        ensures
            r is Some <==> is_capital(c),
            r matches Some(v) ==> letter_of(v) == c,
            r == var_of(c),
    {
        let r = RealVar::letter_to_var(c);
        proof {
            if is_capital(c) {
                lemma_capital_names_var(c);
                let w = choose|v: RealVar| letter_of(v) == c;
                lemma_letter_of_injective(r.unwrap(), w);
            }
        }
        r
    }

    fn letter_to_var(c: char) -> (r: Option<RealVar>)
        ensures
            r is Some <==> is_capital(c),
            r matches Some(v) ==> letter_of(v) == c,
    {
        match c {
            'A' => Some(RealVar::A),
            'B' => Some(RealVar::B),
            'C' => Some(RealVar::C),
            'D' => Some(RealVar::D),
            'E' => Some(RealVar::E),
            'F' => Some(RealVar::F),
            'G' => Some(RealVar::G),
            'H' => Some(RealVar::H),
            'I' => Some(RealVar::I),
            'J' => Some(RealVar::J),
            'K' => Some(RealVar::K),
            'L' => Some(RealVar::L),
            'M' => Some(RealVar::M),
            'N' => Some(RealVar::N),
            'O' => Some(RealVar::O),
            'P' => Some(RealVar::P),
            'Q' => Some(RealVar::Q),
            'R' => Some(RealVar::R),
            'S' => Some(RealVar::S),
            'T' => Some(RealVar::T),
            'U' => Some(RealVar::U),
            'V' => Some(RealVar::V),
            'W' => Some(RealVar::W),
            'X' => Some(RealVar::X),
            'Y' => Some(RealVar::Y),
            'Z' => Some(RealVar::Z),
            _ => None,
        }
    }

    /// The letter that names `var`.
    pub fn to_char(var: RealVar) -> (c: char)
        ensures
            c == letter_of(var),
    {
        match var {
            RealVar::A => 'A',
            RealVar::B => 'B',
            RealVar::C => 'C',
            RealVar::D => 'D',
            RealVar::E => 'E',
            RealVar::F => 'F',
            RealVar::G => 'G',
            RealVar::H => 'H',
            RealVar::I => 'I',
            RealVar::J => 'J',
            RealVar::K => 'K',
            RealVar::L => 'L',
            RealVar::M => 'M',
            RealVar::N => 'N',
            RealVar::O => 'O',
            RealVar::P => 'P',
            RealVar::Q => 'Q',
            RealVar::R => 'R',
            RealVar::S => 'S',
            RealVar::T => 'T',
            RealVar::U => 'U',
            RealVar::V => 'V',
            RealVar::W => 'W',
            RealVar::X => 'X',
            RealVar::Y => 'Y',
            RealVar::Z => 'Z',
        }
    }
}

/// Every capital letter names a variable.
proof fn lemma_capital_names_var(c: char)
    requires
        is_capital(c),
    ensures
        exists|v: RealVar| letter_of(v) == c,
{
    let v = if c == 'A' { RealVar::A } else if c == 'B' { RealVar::B } else if c == 'C' { RealVar::C }
        else if c == 'D' { RealVar::D } else if c == 'E' { RealVar::E } else if c == 'F' { RealVar::F }
        else if c == 'G' { RealVar::G } else if c == 'H' { RealVar::H } else if c == 'I' { RealVar::I }
        else if c == 'J' { RealVar::J } else if c == 'K' { RealVar::K } else if c == 'L' { RealVar::L }
        else if c == 'M' { RealVar::M } else if c == 'N' { RealVar::N } else if c == 'O' { RealVar::O }
        else if c == 'P' { RealVar::P } else if c == 'Q' { RealVar::Q } else if c == 'R' { RealVar::R }
        else if c == 'S' { RealVar::S } else if c == 'T' { RealVar::T } else if c == 'U' { RealVar::U }
        else if c == 'V' { RealVar::V } else if c == 'W' { RealVar::W } else if c == 'X' { RealVar::X }
        else if c == 'Y' { RealVar::Y } else { RealVar::Z };
    assert(letter_of(v) == c);
}

/// Each operator token stands for its own operator (as `from_token` gives
/// it), and no other token stands
/// for one: `+` adds, `-` subtracts, `*` multiplies and `/` divides; `=` and
/// `!=` test equality and inequality; `<`, `<=`, `>` and `>=` compare; `And`,
/// `Or` and `Xor` are the logical operators. Every other token gives `NoOp`.
/// As unary operators, `-` negates and `!` is `Not`, and every other token gives `NoOp`.
pub proof fn lemma_operator_tokens(t: TokenKind)
    ensures
        binary_operator_of(t.tag()) == BinaryOperator::Add <==> t is Plus,
        binary_operator_of(t.tag()) == BinaryOperator::Sub <==> t is Minus,
        binary_operator_of(t.tag()) == BinaryOperator::Mul <==> t is Star,
        binary_operator_of(t.tag()) == BinaryOperator::Div <==> t is Slash,
        binary_operator_of(t.tag()) == BinaryOperator::Equal <==> t is Equal,
        binary_operator_of(t.tag()) == BinaryOperator::NotEqual <==> t is BangEqual,
        binary_operator_of(t.tag()) == BinaryOperator::Less <==> t is Less,
        binary_operator_of(t.tag()) == BinaryOperator::LessEqual <==> t is LessEqual,
        binary_operator_of(t.tag()) == BinaryOperator::Greater <==> t is Greater,
        binary_operator_of(t.tag()) == BinaryOperator::GreaterEqual <==> t is GreaterEqual,
        binary_operator_of(t.tag()) == BinaryOperator::And <==> t is And,
        binary_operator_of(t.tag()) == BinaryOperator::Or <==> t is Or,
        binary_operator_of(t.tag()) == BinaryOperator::Xor <==> t is Xor,
        unary_operator_of(t.tag()) == UnaryOperator::Negative <==> t is Minus,
        unary_operator_of(t.tag()) == UnaryOperator::Not <==> t is Bang,
{
}

/// Different variables have different letters, and every letter is a capital.
pub proof fn lemma_letter_of_injective(v: RealVar, w: RealVar)
    ensures
        letter_of(v) == letter_of(w) ==> v == w,
        is_capital(letter_of(v)),
{
}

/// Reading a variable's letter back gives the variable: `from_char` undoes `to_char`.
pub proof fn lemma_var_of_letter(v: RealVar)
    ensures
        var_of(letter_of(v)) == Some(v),
{
    lemma_letter_of_injective(v, v);
    lemma_capital_names_var(letter_of(v));
    let w = choose|w: RealVar| letter_of(w) == letter_of(v);
    lemma_letter_of_injective(v, w);
}

/// Naming the variable of a capital letter gives the letter back: `to_char`
/// undoes `from_char`.
pub proof fn lemma_letter_of_var(c: char)
    requires
        is_capital(c),
    ensures
        var_of(c) matches Some(v) && letter_of(v) == c,
{
    lemma_capital_names_var(c);
}

#[derive(Debug, Clone, Copy, PartialEq, Eq, Structural)]
pub enum AssignTarget {
    RealVariable(RealVar),
}

impl Expression {
    /// A copy of this expression.
    pub fn duplicate(&self) -> (e: Expression)
        ensures
            e == *self,
        decreases self,
    {
        match self {
            Expression::Binary { op, left, right } => Expression::Binary {
                op: *op,
                left: Box::new((**left).duplicate()),
                right: Box::new((**right).duplicate()),
            },
            Expression::Unary { op, operand } => Expression::Unary {
                op: *op,
                operand: Box::new((**operand).duplicate()),
            },
            Expression::NumberLiteral(s) => Expression::NumberLiteral(s.clone()),
            Expression::StringLiteral(s) => Expression::StringLiteral(s.clone()),
            Expression::RealVariable(v) => Expression::RealVariable(*v),
            Expression::Grouping(b) => Expression::Grouping(Box::new((**b).duplicate())),
        }
    }
}

fn copy_expression_option(e: &Option<Expression>) -> (r: Option<Expression>)
    ensures
        r == *e,
{
    match e {
        Some(x) => Some(x.duplicate()),
        None => None,
    }
}

impl Statement {
    /// Whether two statements are alike: equal, looking through the lists of
    /// statements that they hold to the statements in them.
    pub open spec fn same_as(self, other: Statement) -> bool
        decreases self,
    {
        match (self, other) {
            (
                Statement::If { condition: c1, consequence: k1, alternative: a1 },
                Statement::If { condition: c2, consequence: k2, alternative: a2 },
            ) => c1 == c2 && same_statements(k1@, k2@) && same_statements(a1@, a2@),
            (
                Statement::For { variable: v1, min: lo1, max: hi1, step: s1, body: b1 },
                Statement::For { variable: v2, min: lo2, max: hi2, step: s2, body: b2 },
            ) => v1 == v2 && lo1 == lo2 && hi1 == hi2 && s1 == s2 && same_statements(b1@, b2@),
            _ => self == other,
        }
    }

    /// A copy of this statement.
    pub fn duplicate(&self) -> (s: Statement)
        ensures
            s.same_as(*self),
        decreases self, 0nat,
    {
        match self {
            Statement::Display(e) => Statement::Display(copy_expression_option(e)),
            Statement::Prompt(t) => Statement::Prompt(*t),
            Statement::Assign { target, source } => Statement::Assign {
                target: *target,
                source: source.duplicate(),
            },
            Statement::If { condition, consequence, alternative } => Statement::If {
                condition: condition.duplicate(),
                consequence: copy_statements(consequence),
                alternative: copy_statements(alternative),
            },
            Statement::For { variable, min, max, step, body } => Statement::For {
                variable: *variable,
                min: min.duplicate(),
                max: max.duplicate(),
                step: copy_expression_option(step),
                body: copy_statements(body),
            },
        }
    }
}

impl Clone for Expression {
    fn clone(&self) -> (e: Self)
        ensures
            e == *self,
    {
        self.duplicate()
    }
}

impl Clone for Statement {
    fn clone(&self) -> (s: Self)
        ensures
            s.same_as(*self),
    {
        self.duplicate()
    }
}

impl Clone for Program {
    fn clone(&self) -> (p: Self)
        ensures
            same_statements(p@, self@),
    {
        Program { statements: copy_statements(&self.statements) }
    }
}

/// Whether two lists of statements are alike, statement by statement.
pub open spec fn same_statements(a: Seq<Statement>, b: Seq<Statement>) -> bool
    decreases a,
{
    if a.len() == 0 {
        b.len() == 0
    } else {
        b.len() > 0 && a[0].same_as(b[0]) && same_statements(a.drop_first(), b.drop_first())
    }
}

/// Two lists are alike exactly when they have the same length and are alike
/// at each place.
pub proof fn lemma_same_statements(a: Seq<Statement>, b: Seq<Statement>)
    ensures
        same_statements(a, b) <==> (a.len() == b.len() && forall|i: int|
            0 <= i < a.len() ==> (#[trigger] a[i]).same_as(b[i])),
    decreases a.len(),
{
    if a.len() > 0 && b.len() > 0 {
        lemma_same_statements(a.drop_first(), b.drop_first());
        if a.len() == b.len() && forall|i: int| 0 <= i < a.len() ==> (#[trigger] a[i]).same_as(b[i]) {
            assert forall|i: int| 0 <= i < a.drop_first().len() implies (#[trigger] a.drop_first()[i]).same_as(
                b.drop_first()[i],
            ) by {
                assert(a[i + 1].same_as(b[i + 1]));
            }
        }
        if same_statements(a, b) {
            assert forall|i: int| 0 <= i < a.len() implies (#[trigger] a[i]).same_as(b[i]) by {
                if i > 0 {
                    assert(a.drop_first()[i - 1].same_as(b.drop_first()[i - 1]));
                }
            }
        }
    }
}

/// A copy of a list of statements.
fn copy_statements(v: &Vec<Statement>) -> (r: Vec<Statement>)
    ensures
        same_statements(r@, v@),
    decreases v@, 1nat,
{
    let mut r: Vec<Statement> = Vec::new();
    let mut i: usize = 0;
    while i < v.len()
        invariant
            i <= v.len(),
            r.len() == i,
            forall|j: int| 0 <= j < i ==> (#[trigger] r@[j]).same_as(v@[j]),
        decreases v.len() - i,
    {
        r.push(v[i].duplicate());
        i = i + 1;
    }
    proof {
        lemma_same_statements(r@, v@);
    }
    r
}

} // verus!
