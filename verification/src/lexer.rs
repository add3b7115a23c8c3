use vstd::prelude::*;
use crate::span::{Position, Span};
use crate::text::{
    alphabetic, uppercase, white_space, is_alphabetic, is_digit,
    is_uppercase, is_whitespace, len_utf8, utf8_len, utf8_width, chars_of, string_of,
};
use crate::token::{Token, TokenKind, TokenTag, TokenView};
use vstd::utf8::encode_utf8;

verus! {

// ---------------------------------------------------------------------------
// What the lexer reads: a specification over the characters of the input.
// ---------------------------------------------------------------------------

/// The classes of characters that the lexer reads in runs.
pub enum CharClass {
    Digit,
    Letter,
    Space,
    NotQuote,
}

pub open spec fn in_class(c: char, cl: CharClass) -> bool {
    match cl {
        CharClass::Digit => is_digit(c),
        CharClass::Letter => alphabetic(c),
        CharClass::Space => white_space(c),
        CharClass::NotQuote => c != '"',
    }
}

/// The end of the run of characters of class `cl` that starts at `j`: the first
/// index from `j` on whose character is not in the class, or the length.
pub open spec fn run_end(s: Seq<char>, j: int, cl: CharClass) -> int
    decreases s.len() - j,
{
    if j < 0 || j >= s.len() || !in_class(s[j], cl) {
        j
    } else {
        run_end(s, j + 1, cl)
    }
}

/// The position reached after reading `c` at position `p`: a newline starts
/// the next line at column 1, any other character moves one column on; the
/// byte offset grows by the width of `c` in UTF-8.
pub open spec fn advance_pos(p: Position, c: char) -> Position {
    if c == '\n' {
        Position { line: (p.line + 1) as usize, col: 1, pos: (p.pos + utf8_width(c)) as usize }
    } else {
        Position { line: p.line, col: (p.col + 1) as usize, pos: (p.pos + utf8_width(c)) as usize }
    }
}

/// The position after reading the first `i` characters of `s`.
pub open spec fn pos_at(s: Seq<char>, i: int) -> Position
    decreases i,
{
    if i <= 0 {
        Position { line: 1, col: 1, pos: 0 }
    } else {
        advance_pos(pos_at(s, i - 1), s[i - 1])
    }
}

/// The span of the characters `s[a..b]`.
pub open spec fn span_of(s: Seq<char>, a: int, b: int) -> Span {
    Span {
        start: pos_at(s, a),
        end: pos_at(s, b),
        len: (pos_at(s, b).pos - pos_at(s, a).pos) as usize,
    }
}

/// The keyword spelled by `w`, if it spells one.
pub open spec fn keyword_tag(w: Seq<char>) -> Option<TokenTag> {
    if w == seq!['I', 'f'] {
        Some(TokenTag::If)
    } else if w == seq!['T', 'h', 'e', 'n'] {
        Some(TokenTag::Then)
    } else if w == seq!['E', 'l', 's', 'e'] {
        Some(TokenTag::Else)
    } else if w == seq!['F', 'o', 'r'] {
        Some(TokenTag::For)
    } else if w == seq!['W', 'h', 'i', 'l', 'e'] {
        Some(TokenTag::While)
    } else if w == seq!['R', 'e', 'p', 'e', 'a', 't'] {
        Some(TokenTag::Repeat)
    } else if w == seq!['E', 'n', 'd'] {
        Some(TokenTag::End)
    } else if w == seq!['P', 'a', 'u', 's', 'e'] {
        Some(TokenTag::Pause)
    } else if w == seq!['L', 'b', 'l'] {
        Some(TokenTag::Lbl)
    } else if w == seq!['G', 'o', 't', 'o'] {
        Some(TokenTag::Goto)
    } else if w == seq!['D', 'i', 's', 'p'] {
        Some(TokenTag::Disp)
    } else if w == seq!['A', 'n', 'd'] {
        Some(TokenTag::And)
    } else if w == seq!['O', 'r'] {
        Some(TokenTag::Or)
    } else if w == seq!['X', 'o', 'r'] {
        Some(TokenTag::Xor)
    } else {
        None
    }
}

/// One step of the lexer at index `i`, for a token whose text starts at `st`.
pub enum Step {
    /// The lexer stops with a panic.
    Fail,
    /// Whitespace is skipped up to the given index.
    Skip(int),
    /// A token of the given kind and contents ends at the given index.
    Emit(int, TokenTag, Seq<char>),
}

/// A number: digits, then a point and digits if a digit follows the point.
/// The lexer stops when the input ends inside the number or right after its point.
pub open spec fn number_step(s: Seq<char>, st: int, j: int) -> Step {
    let k = run_end(s, j, CharClass::Digit);
    if k >= s.len() {
        Step::Fail
    } else if s[k] == '.' {
        if k + 1 >= s.len() {
            Step::Fail
        } else if is_digit(s[k + 1]) {
            let m = run_end(s, k + 1, CharClass::Digit);
            if m >= s.len() {
                Step::Fail
            } else {
                Step::Emit(m, TokenTag::NumberLit, s.subrange(st, m))
            }
        } else {
            Step::Emit(k, TokenTag::NumberLit, s.subrange(st, k))
        }
    } else {
        Step::Emit(k, TokenTag::NumberLit, s.subrange(st, k))
    }
}

/// A word: letters, read as a keyword, a one-letter variable or an error.
/// The lexer stops when the input ends inside the word.
pub open spec fn word_step(s: Seq<char>, st: int, j: int) -> Step {
    let k = run_end(s, j, CharClass::Letter);
    if k >= s.len() {
        Step::Fail
    } else {
        let w = s.subrange(st, k);
        match keyword_tag(w) {
            Some(t) => Step::Emit(k, t, Seq::empty()),
            None => if utf8_len(w) == 1 && uppercase(w[0]) {
                Step::Emit(k, TokenTag::Var, seq![w[0]])
            } else {
                Step::Emit(k, TokenTag::Error, w)
            },
        }
    }
}

/// A token that is one character, or two when the second is `next`.
pub open spec fn pair_step(s: Seq<char>, j: int, next: char, two: TokenTag, one: TokenTag) -> Step {
    if j < s.len() && s[j] == next {
        Step::Emit(j + 1, two, Seq::empty())
    } else {
        Step::Emit(j, one, Seq::empty())
    }
}

/// What the lexer does with the character at `i`.
pub open spec fn scan_step(s: Seq<char>, st: int, i: int) -> Step {
    let c = s[i];
    let j = i + 1;
    let e = Seq::<char>::empty();
    if c == '(' {
        Step::Emit(j, TokenTag::LParen, e)
    } else if c == ')' {
        Step::Emit(j, TokenTag::RParen, e)
    } else if c == ',' {
        Step::Emit(j, TokenTag::Comma, e)
    } else if c == '.' {
        Step::Emit(j, TokenTag::Dot, e)
    } else if c == '+' {
        Step::Emit(j, TokenTag::Plus, e)
    } else if c == '*' {
        Step::Emit(j, TokenTag::Star, e)
    } else if c == '/' {
        Step::Emit(j, TokenTag::Slash, e)
    } else if c == '=' {
        Step::Emit(j, TokenTag::Equal, e)
    } else if c == '\n' {
        Step::Emit(j, TokenTag::Newline, e)
    } else if c == '-' {
        pair_step(s, j, '>', TokenTag::Arrow, TokenTag::Minus)
    } else if c == '!' {
        pair_step(s, j, '=', TokenTag::BangEqual, TokenTag::Bang)
    } else if c == '>' {
        pair_step(s, j, '=', TokenTag::GreaterEqual, TokenTag::Greater)
    } else if c == '<' {
        pair_step(s, j, '=', TokenTag::LessEqual, TokenTag::Less)
    } else if c == '"' {
        let k = run_end(s, j, CharClass::NotQuote);
        if k >= s.len() {
            Step::Fail
        } else {
            Step::Emit(k + 1, TokenTag::StringLit, s.subrange(st + 1, k))
        }
    } else if c == ' ' {
        Step::Skip(run_end(s, j, CharClass::Space))
    } else if '0' <= c && c <= '8' {
        number_step(s, st, j)
    } else if alphabetic(c) {
        word_step(s, st, j)
    } else {
        Step::Emit(j, TokenTag::Error, s.subrange(st, j))
    }
}

/// The tokens read from index `i` to the end of `s`, or `None` when the lexer
/// stops with a panic on the way.
pub open spec fn tokens_from(s: Seq<char>, i: int) -> Option<Seq<TokenView>>
    decreases s.len() - i,
{
    if i < 0 || i >= s.len() {
        Some(Seq::empty())
    } else {
        match scan_step(s, i, i) {
            Step::Fail => None,
            Step::Skip(k) => if i < k <= s.len() {
                tokens_from(s, k)
            } else {
                None
            },
            Step::Emit(k, tag, text) => if i < k <= s.len() {
                match tokens_from(s, k) {
                    Some(rest) => Some(
                        seq![TokenView { tag, text, span: span_of(s, i, k) }] + rest,
                    ),
                    None => None,
                }
            } else {
                None
            },
        }
    }
}

/// The end-of-input token of `s`.
pub open spec fn eof_token(s: Seq<char>) -> TokenView {
    TokenView { tag: TokenTag::EOF, text: Seq::empty(), span: span_of(s, s.len() as int, s.len() as int) }
}

/// The tokens of `s`, closed by the end-of-input token, or `None` when the
/// lexer stops with a panic: on a string that is not closed, and on a number or
/// a word that runs to the very end of the input.
pub open spec fn lex_spec(s: Seq<char>) -> Option<Seq<TokenView>> {
    match tokens_from(s, 0) {
        Some(ts) => Some(ts.push(eof_token(s))),
        None => None,
    }
}

/// Whether the lexer reads all of `s` without a panic.
pub open spec fn lexable(s: Seq<char>) -> bool {
    lex_spec(s) is Some
}

/// The views of a sequence of tokens.
pub open spec fn token_views(ts: Seq<Token>) -> Seq<TokenView> {
    ts.map_values(|t: Token| t@)
}

// ---------------------------------------------------------------------------
// Facts about the specification.
// ---------------------------------------------------------------------------

pub proof fn lemma_run_end(s: Seq<char>, j: int, cl: CharClass)
    requires
        0 <= j <= s.len(),
    ensures
        j <= run_end(s, j, cl) <= s.len(),
        forall|k: int| j <= k < run_end(s, j, cl) ==> in_class(#[trigger] s[k], cl),
        run_end(s, j, cl) < s.len() ==> !in_class(s[run_end(s, j, cl)], cl),
    decreases s.len() - j,
{
    if j < s.len() && in_class(s[j], cl) {
        lemma_run_end(s, j + 1, cl);
    }
}

/// A run ends where its characters stop being of the class.
pub proof fn lemma_run_end_at(s: Seq<char>, j: int, x: int, cl: CharClass)
    requires
        0 <= j <= x <= s.len(),
        forall|k: int| j <= k < x ==> in_class(#[trigger] s[k], cl),
        x < s.len() ==> !in_class(s[x], cl),
    ensures
        run_end(s, j, cl) == x,
{
    lemma_run_end(s, j, cl);
    let r = run_end(s, j, cl);
    if r < x {
        assert(in_class(s[r], cl));
    } else if x < r {
        assert(in_class(s[x], cl));
    }
}

pub proof fn lemma_width_bounds(c: char)
    ensures
        1 <= utf8_width(c) <= 4,
{
}

pub proof fn lemma_utf8_len_prefix(s: Seq<char>, i: int)
    requires
        0 <= i < s.len(),
    ensures
        utf8_len(s.take(i + 1)) == utf8_len(s.take(i)) + utf8_width(s[i]),
{
    assert(s.take(i + 1).drop_last() =~= s.take(i));
}

/// Reading a prefix takes at least one byte per character.
pub proof fn lemma_utf8_len_lower(s: Seq<char>, i: int)
    requires
        0 <= i <= s.len(),
    ensures
        i <= utf8_len(s.take(i)),
    decreases i,
{
    if i > 0 {
        lemma_utf8_len_lower(s, i - 1);
        lemma_utf8_len_prefix(s, i - 1);
        lemma_width_bounds(s[i - 1]);
    }
}

/// Reading a prefix takes no more bytes than reading the whole, and at least
/// one byte per character.
pub proof fn lemma_utf8_len_take(s: Seq<char>, i: int)
    requires
        0 <= i <= s.len(),
    ensures
        i <= utf8_len(s.take(i)) <= utf8_len(s),
        utf8_len(s.take(i)) + (s.len() - i) <= utf8_len(s),
        s.len() <= utf8_len(s),
    decreases s.len() - i,
{
    lemma_utf8_len_lower(s, i);
    lemma_utf8_len_lower(s, s.len() as int);
    assert(s.take(s.len() as int) =~= s);
    if i < s.len() {
        lemma_utf8_len_take(s, i + 1);
        lemma_utf8_len_prefix(s, i);
        lemma_width_bounds(s[i]);
    }
}

/// Where the lexer stands after `i` characters: the byte offset is the width
/// of those characters, and line and column are at most `i + 1`.
pub proof fn lemma_pos_at(s: Seq<char>, i: int)
    requires
        0 <= i <= s.len(),
        utf8_len(s) < usize::MAX,
    ensures
        pos_at(s, i).pos == utf8_len(s.take(i)),
        1 <= pos_at(s, i).line <= i + 1,
        1 <= pos_at(s, i).col <= i + 1,
    decreases i,
{
    lemma_utf8_len_take(s, i);
    if i > 0 {
        lemma_pos_at(s, i - 1);
        lemma_utf8_len_prefix(s, i - 1);
        lemma_utf8_len_take(s, i - 1);
    } else {
        assert(s.take(0) =~= Seq::<char>::empty());
    }
}

/// Byte offsets do not go back as the lexer reads on.
pub proof fn lemma_pos_at_mono(s: Seq<char>, a: int, b: int)
    requires
        0 <= a <= b <= s.len(),
        utf8_len(s) < usize::MAX,
    ensures
        pos_at(s, a).pos <= pos_at(s, b).pos,
    decreases b - a,
{
    lemma_pos_at(s, a);
    lemma_pos_at(s, b);
    if a < b {
        lemma_pos_at_mono(s, a, b - 1);
        lemma_pos_at(s, b - 1);
        lemma_utf8_len_prefix(s, b - 1);
    }
}

/// Each step moves forward and stays in the input.
pub proof fn lemma_scan_step_bounds(s: Seq<char>, st: int, i: int)
    requires
        0 <= st <= i < s.len(),
    ensures
        scan_step(s, st, i) matches Step::Skip(k) ==> i < k <= s.len(),
        scan_step(s, st, i) matches Step::Emit(k, _, _) ==> i < k <= s.len(),
{
    lemma_run_end(s, i + 1, CharClass::Digit);
    lemma_run_end(s, i + 1, CharClass::Letter);
    lemma_run_end(s, i + 1, CharClass::Space);
    lemma_run_end(s, i + 1, CharClass::NotQuote);
    let k = run_end(s, i + 1, CharClass::Digit);
    if k + 1 < s.len() {
        lemma_run_end(s, k + 1, CharClass::Digit);
    }
}

/// The punctuation and operator characters each read as their own token:
/// `(` `)` `,` `.` `+` `*` `/` `=` and a newline are one-character tokens;
/// `-`, `!`, `>` and `<` are `Minus`, `Bang`, `Greater` and `Less`, or, with
/// the character that may follow them (`>` after `-`, `=` after the others),
/// the two-character tokens `Arrow`, `BangEqual`, `GreaterEqual` and
/// `LessEqual`. Such tokens carry no text.
pub proof fn lemma_symbol_tokens(s: Seq<char>, i: int)
    requires
        0 <= i < s.len(),
    ensures
        ({
            let c = s[i];
            let two = |next: char| i + 1 < s.len() && s[i + 1] == next;
            let one_char = |t: TokenTag| scan_step(s, i, i) == Step::Emit(i + 1, t, Seq::empty());
            let two_char = |t: TokenTag| scan_step(s, i, i) == Step::Emit(i + 2, t, Seq::empty());
            &&& c == '(' ==> one_char(TokenTag::LParen)
            &&& c == ')' ==> one_char(TokenTag::RParen)
            &&& c == ',' ==> one_char(TokenTag::Comma)
            &&& c == '.' ==> one_char(TokenTag::Dot)
            &&& c == '+' ==> one_char(TokenTag::Plus)
            &&& c == '*' ==> one_char(TokenTag::Star)
            &&& c == '/' ==> one_char(TokenTag::Slash)
            &&& c == '=' ==> one_char(TokenTag::Equal)
            &&& c == '\n' ==> one_char(TokenTag::Newline)
            &&& c == '-' ==> if two('>') { two_char(TokenTag::Arrow) } else { one_char(TokenTag::Minus) }
            &&& c == '!' ==> if two('=') { two_char(TokenTag::BangEqual) } else { one_char(TokenTag::Bang) }
            &&& c == '>' ==> if two('=') { two_char(TokenTag::GreaterEqual) } else { one_char(TokenTag::Greater) }
            &&& c == '<' ==> if two('=') { two_char(TokenTag::LessEqual) } else { one_char(TokenTag::Less) }
        }),
{
}

/// Whether `c` is one of the ASCII digits `0` to `9`.
pub open spec fn decimal_digit(c: char) -> bool {
    '0' <= c && c <= '9'
}

/// A number token: a digit other than `9` starts a number, which runs over the
/// digits `0` to `9` that follow. Where a point follows those digits and any
/// digit `0` to `9` follows the point, the point and the digits after it belong
/// to the number too. The token's text is all of the number, and it ends at the
/// first character that does not belong to it; the first token read from `i`
/// is that number. A point that ends the input makes the lexer stop.
pub proof fn lemma_number_token(s: Seq<char>, i: int, p: int, q: int)
    requires
        0 <= i < p < s.len(),
        '0' <= s[i] && s[i] <= '8',
        forall|k: int| i <= k < p ==> decimal_digit(#[trigger] s[k]),
        !decimal_digit(s[p]),
        s[p] == '.' && p + 1 < s.len() && decimal_digit(s[p + 1]) ==> {
            &&& p + 1 < q < s.len()
            &&& forall|k: int| p < k < q ==> decimal_digit(#[trigger] s[k])
            &&& !decimal_digit(s[q])
        },
    ensures
        ({
            let fraction = s[p] == '.' && p + 1 < s.len() && decimal_digit(s[p + 1]);
            let end = if fraction { q } else { p };
            &&& (s[p] == '.' && p + 1 >= s.len()) ==> scan_step(s, i, i) == Step::Fail
            &&& !(s[p] == '.' && p + 1 >= s.len()) ==> {
                &&& scan_step(s, i, i) == Step::Emit(end, TokenTag::NumberLit, s.subrange(i, end))
                &&& tokens_from(s, i) matches Some(ts) ==> ts.len() > 0 && ts[0] == (TokenView {
                    tag: TokenTag::NumberLit,
                    text: s.subrange(i, end),
                    span: span_of(s, i, end),
                })
            }
        }),
{
    lemma_run_end_at(s, i + 1, p, CharClass::Digit);
    if s[p] == '.' && p + 1 < s.len() && decimal_digit(s[p + 1]) {
        lemma_run_end_at(s, p + 1, q, CharClass::Digit);
    }
}

/// A sequence of characters is one byte wide in UTF-8 exactly when it is a
/// single character of one byte.
pub proof fn lemma_single_byte(w: Seq<char>)
    requires
        w.len() >= 1,
    ensures
        utf8_len(w) == 1 <==> (w.len() == 1 && utf8_width(w[0]) == 1),
{
    lemma_utf8_len_lower(w, w.len() as int);
    assert(w.take(w.len() as int) =~= w);
    assert(w.len() <= utf8_len(w));
    if w.len() == 1 {
        assert(w.drop_last() =~= Seq::<char>::empty());
        assert(utf8_len(w.drop_last()) == 0);
        assert(utf8_len(w) == utf8_len(w.drop_last()) + utf8_width(w.last()));
        assert(w.last() == w[0]);
    }
}

// ---------------------------------------------------------------------------
// The lexer.
// ---------------------------------------------------------------------------

/// The lexer's state: the input's characters, where reading stands, where the
/// current token started, and the tokens read so far.
pub struct Lexer {
    chars: Vec<char>,
    index: usize,
    start_index: usize,
    pos: Position,
    start: Position,
    tokens: Vec<Token>,
}

/// The lexer's state as the contracts speak of it.
pub struct LexerView {
    pub chars: Seq<char>,
    pub index: int,
    pub start_index: int,
    pub pos: Position,
    pub start: Position,
    pub tokens: Seq<TokenView>,
}

impl View for Lexer {
    type V = LexerView;

    closed spec fn view(&self) -> LexerView {
        LexerView {
            chars: self.chars@,
            index: self.index as int,
            start_index: self.start_index as int,
            pos: self.pos,
            start: self.start,
            tokens: token_views(self.tokens@),
        }
    }
}

impl LexerView {
    /// The positions agree with the indices, and the input's width in bytes fits a `usize`.
    pub open spec fn wf(self) -> bool {
        &&& utf8_len(self.chars) < usize::MAX
        &&& 0 <= self.start_index <= self.index <= self.chars.len()
        &&& self.pos == pos_at(self.chars, self.index)
        &&& self.start == pos_at(self.chars, self.start_index)
    }

    /// Whether `scan_token` can read from here without a panic.
    pub open spec fn can_scan(self) -> bool {
        self.index < self.chars.len() ==> !(scan_step(self.chars, self.start_index, self.index) is Fail)
    }

    /// The state after `scan_token`.
    pub open spec fn scanned(self) -> LexerView {
        if self.index >= self.chars.len() {
            self
        } else {
            match scan_step(self.chars, self.start_index, self.index) {
                Step::Skip(k) => LexerView { index: k, pos: pos_at(self.chars, k), ..self },
                Step::Emit(k, tag, text) => LexerView {
                    index: k,
                    pos: pos_at(self.chars, k),
                    tokens: self.tokens.push(
                        TokenView { tag, text, span: span_of(self.chars, self.start_index, k) },
                    ),
                    ..self
                },
                Step::Fail => self,
            }
        }
    }
}

/// The keyword spelled by `s[from..to]`, if it spells one.
fn keyword_kind(s: &Vec<char>, from: usize, to: usize) -> (r: Option<TokenKind>)
    requires
        from <= to <= s.len(),
    ensures
        r matches Some(k) ==> keyword_tag(s@.subrange(from as int, to as int)) == Some(k.tag())
            && k.text() == Seq::<char>::empty(),
        r is None ==> keyword_tag(s@.subrange(from as int, to as int)) is None,
{
    if to - from == 2 && s[from] == 'I' && s[from + 1] == 'f' {
        assert(s@.subrange(from as int, to as int) =~= seq!['I', 'f']);
        return Some(TokenKind::If);
    }
    if to - from == 4 && s[from] == 'T' && s[from + 1] == 'h' && s[from + 2] == 'e' && s[from + 3] == 'n' {
        assert(s@.subrange(from as int, to as int) =~= seq!['T', 'h', 'e', 'n']);
        return Some(TokenKind::Then);
    }
    if to - from == 4 && s[from] == 'E' && s[from + 1] == 'l' && s[from + 2] == 's' && s[from + 3] == 'e' {
        assert(s@.subrange(from as int, to as int) =~= seq!['E', 'l', 's', 'e']);
        return Some(TokenKind::Else);
    }
    if to - from == 3 && s[from] == 'F' && s[from + 1] == 'o' && s[from + 2] == 'r' {
        assert(s@.subrange(from as int, to as int) =~= seq!['F', 'o', 'r']);
        return Some(TokenKind::For);
    }
    if to - from == 5 && s[from] == 'W' && s[from + 1] == 'h' && s[from + 2] == 'i' && s[from + 3] == 'l' && s[from + 4] == 'e' {
        assert(s@.subrange(from as int, to as int) =~= seq!['W', 'h', 'i', 'l', 'e']);
        return Some(TokenKind::While);
    }
    if to - from == 6 && s[from] == 'R' && s[from + 1] == 'e' && s[from + 2] == 'p' && s[from + 3] == 'e' && s[from + 4] == 'a' && s[from + 5] == 't' {
        assert(s@.subrange(from as int, to as int) =~= seq!['R', 'e', 'p', 'e', 'a', 't']);
        return Some(TokenKind::Repeat);
    }
    if to - from == 3 && s[from] == 'E' && s[from + 1] == 'n' && s[from + 2] == 'd' {
        assert(s@.subrange(from as int, to as int) =~= seq!['E', 'n', 'd']);
        return Some(TokenKind::End);
    }
    if to - from == 5 && s[from] == 'P' && s[from + 1] == 'a' && s[from + 2] == 'u' && s[from + 3] == 's' && s[from + 4] == 'e' {
        assert(s@.subrange(from as int, to as int) =~= seq!['P', 'a', 'u', 's', 'e']);
        return Some(TokenKind::Pause);
    }
    if to - from == 3 && s[from] == 'L' && s[from + 1] == 'b' && s[from + 2] == 'l' {
        assert(s@.subrange(from as int, to as int) =~= seq!['L', 'b', 'l']);
        return Some(TokenKind::Lbl);
    }
    if to - from == 4 && s[from] == 'G' && s[from + 1] == 'o' && s[from + 2] == 't' && s[from + 3] == 'o' {
        assert(s@.subrange(from as int, to as int) =~= seq!['G', 'o', 't', 'o']);
        return Some(TokenKind::Goto);
    }
    if to - from == 4 && s[from] == 'D' && s[from + 1] == 'i' && s[from + 2] == 's' && s[from + 3] == 'p' {
        assert(s@.subrange(from as int, to as int) =~= seq!['D', 'i', 's', 'p']);
        return Some(TokenKind::Disp);
    }
    if to - from == 3 && s[from] == 'A' && s[from + 1] == 'n' && s[from + 2] == 'd' {
        assert(s@.subrange(from as int, to as int) =~= seq!['A', 'n', 'd']);
        return Some(TokenKind::And);
    }
    if to - from == 2 && s[from] == 'O' && s[from + 1] == 'r' {
        assert(s@.subrange(from as int, to as int) =~= seq!['O', 'r']);
        return Some(TokenKind::Or);
    }
    if to - from == 3 && s[from] == 'X' && s[from + 1] == 'o' && s[from + 2] == 'r' {
        assert(s@.subrange(from as int, to as int) =~= seq!['X', 'o', 'r']);
        return Some(TokenKind::Xor);
    }
    proof {
        let w = s@.subrange(from as int, to as int);
        if w == seq!['I', 'f'] { assert(w.len() == 2); assert(w[0] == seq!['I', 'f'][0]); assert(w[1] == seq!['I', 'f'][1]); }
        if w == seq!['T', 'h', 'e', 'n'] { assert(w.len() == 4); assert(w[0] == seq!['T', 'h', 'e', 'n'][0]); assert(w[1] == seq!['T', 'h', 'e', 'n'][1]); assert(w[2] == seq!['T', 'h', 'e', 'n'][2]); assert(w[3] == seq!['T', 'h', 'e', 'n'][3]); }
        if w == seq!['E', 'l', 's', 'e'] { assert(w.len() == 4); assert(w[0] == seq!['E', 'l', 's', 'e'][0]); assert(w[1] == seq!['E', 'l', 's', 'e'][1]); assert(w[2] == seq!['E', 'l', 's', 'e'][2]); assert(w[3] == seq!['E', 'l', 's', 'e'][3]); }
        if w == seq!['F', 'o', 'r'] { assert(w.len() == 3); assert(w[0] == seq!['F', 'o', 'r'][0]); assert(w[1] == seq!['F', 'o', 'r'][1]); assert(w[2] == seq!['F', 'o', 'r'][2]); }
        if w == seq!['W', 'h', 'i', 'l', 'e'] { assert(w.len() == 5); assert(w[0] == seq!['W', 'h', 'i', 'l', 'e'][0]); assert(w[1] == seq!['W', 'h', 'i', 'l', 'e'][1]); assert(w[2] == seq!['W', 'h', 'i', 'l', 'e'][2]); assert(w[3] == seq!['W', 'h', 'i', 'l', 'e'][3]); assert(w[4] == seq!['W', 'h', 'i', 'l', 'e'][4]); }
        if w == seq!['R', 'e', 'p', 'e', 'a', 't'] { assert(w.len() == 6); assert(w[0] == seq!['R', 'e', 'p', 'e', 'a', 't'][0]); assert(w[1] == seq!['R', 'e', 'p', 'e', 'a', 't'][1]); assert(w[2] == seq!['R', 'e', 'p', 'e', 'a', 't'][2]); assert(w[3] == seq!['R', 'e', 'p', 'e', 'a', 't'][3]); assert(w[4] == seq!['R', 'e', 'p', 'e', 'a', 't'][4]); assert(w[5] == seq!['R', 'e', 'p', 'e', 'a', 't'][5]); }
        if w == seq!['E', 'n', 'd'] { assert(w.len() == 3); assert(w[0] == seq!['E', 'n', 'd'][0]); assert(w[1] == seq!['E', 'n', 'd'][1]); assert(w[2] == seq!['E', 'n', 'd'][2]); }
        if w == seq!['P', 'a', 'u', 's', 'e'] { assert(w.len() == 5); assert(w[0] == seq!['P', 'a', 'u', 's', 'e'][0]); assert(w[1] == seq!['P', 'a', 'u', 's', 'e'][1]); assert(w[2] == seq!['P', 'a', 'u', 's', 'e'][2]); assert(w[3] == seq!['P', 'a', 'u', 's', 'e'][3]); assert(w[4] == seq!['P', 'a', 'u', 's', 'e'][4]); }
        if w == seq!['L', 'b', 'l'] { assert(w.len() == 3); assert(w[0] == seq!['L', 'b', 'l'][0]); assert(w[1] == seq!['L', 'b', 'l'][1]); assert(w[2] == seq!['L', 'b', 'l'][2]); }
        if w == seq!['G', 'o', 't', 'o'] { assert(w.len() == 4); assert(w[0] == seq!['G', 'o', 't', 'o'][0]); assert(w[1] == seq!['G', 'o', 't', 'o'][1]); assert(w[2] == seq!['G', 'o', 't', 'o'][2]); assert(w[3] == seq!['G', 'o', 't', 'o'][3]); }
        if w == seq!['D', 'i', 's', 'p'] { assert(w.len() == 4); assert(w[0] == seq!['D', 'i', 's', 'p'][0]); assert(w[1] == seq!['D', 'i', 's', 'p'][1]); assert(w[2] == seq!['D', 'i', 's', 'p'][2]); assert(w[3] == seq!['D', 'i', 's', 'p'][3]); }
        if w == seq!['A', 'n', 'd'] { assert(w.len() == 3); assert(w[0] == seq!['A', 'n', 'd'][0]); assert(w[1] == seq!['A', 'n', 'd'][1]); assert(w[2] == seq!['A', 'n', 'd'][2]); }
        if w == seq!['O', 'r'] { assert(w.len() == 2); assert(w[0] == seq!['O', 'r'][0]); assert(w[1] == seq!['O', 'r'][1]); }
        if w == seq!['X', 'o', 'r'] { assert(w.len() == 3); assert(w[0] == seq!['X', 'o', 'r'][0]); assert(w[1] == seq!['X', 'o', 'r'][1]); assert(w[2] == seq!['X', 'o', 'r'][2]); }
    }
    None
}

impl Lexer {
    pub fn new(input: &str) -> (l: Self)
        ensures
            l@.chars == input@,
            l@.index == 0,
            l@.start_index == 0,
            l@.pos == (Position { line: 1, col: 1, pos: 0 }),
            l@.start == (Position { line: 1, col: 1, pos: 0 }),
            l@.tokens == Seq::<TokenView>::empty(),
    {
        let chars = chars_of(input);
        let tokens: Vec<Token> = Vec::new();
        let l = Self {
            chars,
            index: 0,
            start_index: 0,
            pos: Position::new(1, 1, 0),
            start: Position::new(1, 1, 0),
            tokens,
        };
        assert(token_views(l.tokens@) =~= Seq::<TokenView>::empty());
        l
    }

    /// Whether all of the input has been read.
    pub fn is_at_end(&self) -> (b: bool)
        ensures
            b == (self@.index >= self@.chars.len()),
    {
        self.index >= self.chars.len()
    }


    /// Reads one token, or skips a run of blanks, from where reading stands;
    /// the token's text starts where the current token started.
    pub fn scan_token(&mut self)
        requires
            old(self)@.wf(),
            old(self)@.can_scan(),
        ensures
            final(self)@ == old(self)@.scanned(),
    {
        self.try_scan();
    }

    /// As `scan_token`, answering whether the step can be taken: `false`
    /// exactly where `scan_token` would panic (a string, number or word that
    /// the input ends inside of), and otherwise the state that `scan_token` leaves.
    pub fn try_scan(&mut self) -> (ok: bool)
        requires
            old(self)@.wf(),
        ensures
            final(self)@.wf(),
            final(self)@.chars == old(self)@.chars,
            final(self)@.start_index == old(self)@.start_index,
            ok == old(self)@.can_scan(),
            ok ==> final(self)@ == old(self)@.scanned(),
    {
        let ghost old_view = self@;
        let ghost s = self@.chars;
        let ghost st = self@.start_index;
        let ghost i = self@.index;
        let c = match self.advance() {
            Some(c) => c,
            None => return true,
        };
        proof {
            lemma_scan_step_bounds(s, st, i);
        }
        let kind: TokenKind;
        if c == '(' {
            kind = TokenKind::LParen;
        } else if c == ')' {
            kind = TokenKind::RParen;
        } else if c == ',' {
            kind = TokenKind::Comma;
        } else if c == '.' {
            kind = TokenKind::Dot;
        } else if c == '+' {
            kind = TokenKind::Plus;
        } else if c == '*' {
            kind = TokenKind::Star;
        } else if c == '/' {
            kind = TokenKind::Slash;
        } else if c == '=' {
            kind = TokenKind::Equal;
        } else if c == '\n' {
            kind = TokenKind::Newline;
        } else if c == '-' {
            kind = if self.match_char('>') { TokenKind::Arrow } else { TokenKind::Minus };
        } else if c == '!' {
            kind = if self.match_char('=') { TokenKind::BangEqual } else { TokenKind::Bang };
        } else if c == '>' {
            kind = if self.match_char('=') { TokenKind::GreaterEqual } else { TokenKind::Greater };
        } else if c == '<' {
            kind = if self.match_char('=') { TokenKind::LessEqual } else { TokenKind::Less };
        } else if c == '"' {
            match self.scan_string() {
                Some(k) => {
                    kind = k;
                },
                None => return false,
            }
        } else if c == ' ' {
            self.skip_whitespace();
            return true;
        } else if '0' <= c && c <= '8' {
            match self.scan_number() {
                Some(k) => {
                    kind = k;
                },
                None => return false,
            }
        } else if is_alphabetic(c) {
            match self.scan_keyword() {
                Some(k) => {
                    kind = k;
                },
                None => return false,
            }
        } else {
            kind = TokenKind::Error(self.current_lexeme());
        }
        self.add_token(kind);
        true
    }

    /// Reads the next character, if there is one.
    fn advance(&mut self) -> (r: Option<char>)
        requires
            old(self)@.wf(),
        ensures
            old(self)@.index < old(self)@.chars.len() ==> r == Some(old(self)@.chars[old(self)@.index])
                && final(self)@ == (LexerView {
                    index: old(self)@.index + 1,
                    pos: pos_at(old(self)@.chars, old(self)@.index + 1),
                    ..old(self)@
                }),
            old(self)@.index >= old(self)@.chars.len() ==> r is None && final(self)@ == old(self)@,
            final(self)@.wf(),
    {
        if self.index >= self.chars.len() {
            return None;
        }
        let c = self.chars[self.index];
        proof {
            lemma_pos_at(self@.chars, self@.index);
            lemma_pos_at(self@.chars, self@.index + 1);
            lemma_utf8_len_take(self@.chars, self@.index + 1);
            lemma_utf8_len_prefix(self@.chars, self@.index);
        }
        let w = len_utf8(c);
        self.index = self.index + 1;
        if c == '\n' {
            self.pos = Position::new(self.pos.line + 1, 1, self.pos.pos + w);
        } else {
            self.pos = Position::new(self.pos.line, self.pos.col + 1, self.pos.pos + w);
        }
        Some(c)
    }

    /// The next character, if there is one.
    fn peek(&self) -> (r: Option<char>)
        ensures
            r == (if self@.index < self@.chars.len() {
                Some(self@.chars[self@.index])
            } else {
                None::<char>
            }),
    {
        if self.index < self.chars.len() {
            Some(self.chars[self.index])
        } else {
            None
        }
    }

    /// The character after the next one, if there is one.
    fn peek_next(&self) -> (r: Option<char>)
        requires
            self@.index < self@.chars.len(),
        ensures
            r == (if self@.index + 1 < self@.chars.len() {
                Some(self@.chars[self@.index + 1])
            } else {
                None::<char>
            }),
    {
        if self.index < self.chars.len() - 1 {
            Some(self.chars[self.index + 1])
        } else {
            None
        }
    }

    /// Reads the next character if it is `expected`.
    fn match_char(&mut self, expected: char) -> (b: bool)
        requires
            old(self)@.wf(),
        ensures
            b == (old(self)@.index < old(self)@.chars.len() && old(self)@.chars[old(self)@.index]
                == expected),
            b ==> final(self)@ == (LexerView {
                index: old(self)@.index + 1,
                pos: pos_at(old(self)@.chars, old(self)@.index + 1),
                ..old(self)@
            }),
            !b ==> final(self)@ == old(self)@,
            final(self)@.wf(),
    {
        if self.is_at_end() {
            return false;
        }
        match self.peek() {
            Some(c) => if c != expected {
                return false;
            },
            None => return false,
        }
        self.advance();
        true
    }

    /// The text of the current token so far.
    fn current_lexeme(&self) -> (r: String)
        requires
            self@.wf(),
        ensures
            r@ == self@.chars.subrange(self@.start_index, self@.index),
    {
        string_of(&self.chars, self.start_index, self.index)
    }

    /// Reads on over whitespace.
    fn skip_whitespace(&mut self)
        requires
            old(self)@.wf(),
        ensures
            final(self)@ == (LexerView {
                index: run_end(old(self)@.chars, old(self)@.index, CharClass::Space),
                pos: pos_at(old(self)@.chars, run_end(old(self)@.chars, old(self)@.index, CharClass::Space)),
                ..old(self)@
            }),
            final(self)@.wf(),
    {
        let ghost s = self@.chars;
        let ghost j = self@.index;
        let ghost v0 = self@;
        loop
            invariant_except_break
                self@.wf(),
                self@ == (LexerView { index: self@.index, pos: self@.pos, ..v0 }),
                j <= self@.index,
                v0.wf(),
                v0 == old(self)@,
                s == v0.chars,
                j == v0.index,
                forall|k: int| j <= k < self@.index ==> in_class(#[trigger] s[k], CharClass::Space),
            ensures
                self@.wf(),
                v0.wf(),
                s == v0.chars,
                j == v0.index,
                self@ == (LexerView { index: self@.index, pos: self@.pos, ..v0 }),
                j <= self@.index,
                forall|k: int| j <= k < self@.index ==> in_class(#[trigger] s[k], CharClass::Space),
                self@.index < s.len() ==> !in_class(s[self@.index], CharClass::Space),
            decreases s.len() - self@.index,
        {
            match self.peek() {
                Some(c) => {
                    if is_whitespace(c) {
                        self.advance();
                    } else {
                        break;
                    }
                },
                None => break,
            }
        }
        proof {
            lemma_run_end_at(s, j, self@.index, CharClass::Space);
        }
    }

    /// Reads the rest of a string literal, up to its closing quote.
    fn scan_string(&mut self) -> (r: Option<TokenKind>)
        requires
            old(self)@.wf(),
            old(self)@.start_index < old(self)@.index,
        ensures
            final(self)@.chars == old(self)@.chars,
            final(self)@.start_index == old(self)@.start_index,
            final(self)@.wf(),
            ({
                let v = old(self)@;
                let k = run_end(v.chars, v.index, CharClass::NotQuote);
                &&& r is None <==> k >= v.chars.len()
                &&& r matches Some(kind) ==> {
                    &&& kind.tag() == TokenTag::StringLit
                    &&& kind.text() == v.chars.subrange(v.start_index + 1, k)
                    &&& final(self)@ == (LexerView { index: k + 1, pos: pos_at(v.chars, k + 1), ..v })
                }
            }),
    {
        let ghost s = self@.chars;
        let ghost j = self@.index;
        let ghost v0 = self@;
        loop
            invariant_except_break
                self@.wf(),
                self@ == (LexerView { index: self@.index, pos: self@.pos, ..v0 }),
                j <= self@.index,
                v0.wf(),
                v0 == old(self)@,
                s == v0.chars,
                j == v0.index,
                forall|k: int| j <= k < self@.index ==> in_class(#[trigger] s[k], CharClass::NotQuote),
            ensures
                self@.wf(),
                v0.wf(),
                s == v0.chars,
                j == v0.index,
                self@ == (LexerView { index: self@.index, pos: self@.pos, ..v0 }),
                j <= self@.index < s.len(),
                forall|k: int| j <= k < self@.index ==> in_class(#[trigger] s[k], CharClass::NotQuote),
                !in_class(s[self@.index], CharClass::NotQuote),
            decreases s.len() - self@.index,
        {
            match self.peek() {
                Some(c) => {
                    if c != '"' {
                        self.advance();
                    } else {
                        break;
                    }
                },
                None => {
                    proof {
                        lemma_run_end_at(s, j, self@.index, CharClass::NotQuote);
                    }
                    return None;
                },
            }
        }
        proof {
            lemma_run_end_at(s, j, self@.index, CharClass::NotQuote);
        }
        self.advance();
        let value = string_of(&self.chars, self.start_index + 1, self.index - 1);
        Some(TokenKind::StringLit(value))
    }

    /// Reads on over digits; `None` where the input ends inside them.
    fn skip_digits(&mut self) -> (ok: bool)
        requires
            old(self)@.wf(),
        ensures
            final(self)@.chars == old(self)@.chars,
            final(self)@.start_index == old(self)@.start_index,
            final(self)@.wf(),
            ok == (run_end(old(self)@.chars, old(self)@.index, CharClass::Digit) < old(self)@.chars.len()),
            ok ==> final(self)@ == (LexerView {
                index: run_end(old(self)@.chars, old(self)@.index, CharClass::Digit),
                pos: pos_at(old(self)@.chars, run_end(old(self)@.chars, old(self)@.index, CharClass::Digit)),
                ..old(self)@
            }),
    {
        let ghost s = self@.chars;
        let ghost j = self@.index;
        let ghost v0 = self@;
        loop
            invariant_except_break
                self@.wf(),
                self@ == (LexerView { index: self@.index, pos: self@.pos, ..v0 }),
                j <= self@.index,
                v0.wf(),
                v0 == old(self)@,
                s == v0.chars,
                j == v0.index,
                forall|k: int| j <= k < self@.index ==> in_class(#[trigger] s[k], CharClass::Digit),
            ensures
                self@.wf(),
                v0.wf(),
                s == v0.chars,
                j == v0.index,
                self@ == (LexerView { index: self@.index, pos: self@.pos, ..v0 }),
                j <= self@.index < s.len(),
                forall|k: int| j <= k < self@.index ==> in_class(#[trigger] s[k], CharClass::Digit),
                !in_class(s[self@.index], CharClass::Digit),
            decreases s.len() - self@.index,
        {
            match self.peek() {
                Some(c) => {
                    if '0' <= c && c <= '9' {
                        self.advance();
                    } else {
                        break;
                    }
                },
                None => {
                    proof {
                        lemma_run_end_at(s, j, self@.index, CharClass::Digit);
                    }
                    return false;
                },
            }
        }
        proof {
            lemma_run_end_at(s, j, self@.index, CharClass::Digit);
        }
        true
    }

    /// Reads the rest of a number.
    fn scan_number(&mut self) -> (r: Option<TokenKind>)
        requires
            old(self)@.wf(),
            old(self)@.start_index < old(self)@.index,
        ensures
            final(self)@.chars == old(self)@.chars,
            final(self)@.start_index == old(self)@.start_index,
            final(self)@.wf(),
            ({
                let v = old(self)@;
                &&& r is None <==> number_step(v.chars, v.start_index, v.index) is Fail
                &&& r matches Some(kind) ==> number_step(v.chars, v.start_index, v.index) == Step::Emit(
                    final(self)@.index,
                    kind.tag(),
                    kind.text(),
                )
                    && final(self)@ == (LexerView { index: final(self)@.index, pos: pos_at(v.chars, final(self)@.index), ..v })
            }),
    {
        let ghost v = self@;
        let ghost s = self@.chars;
        if !self.skip_digits() {
            return None;
        }
        proof {
            lemma_run_end(s, v.index, CharClass::Digit);
        }
        match self.peek() {
            Some(c) => {
                if c == '.' {
                    match self.peek_next() {
                        Some(d) => {
                            if '0' <= d && d <= '9' {
                                self.advance();
                                if !self.skip_digits() {
                                    return None;
                                }
                            }
                        },
                        None => return None,
                    }
                }
            },
            None => {},
        }
        Some(TokenKind::NumberLit(self.current_lexeme()))
    }

    /// Reads the rest of a word, and tells a keyword, a variable and an error apart.
    fn scan_keyword(&mut self) -> (r: Option<TokenKind>)
        requires
            old(self)@.wf(),
            old(self)@.start_index < old(self)@.index,
        ensures
            final(self)@.chars == old(self)@.chars,
            final(self)@.start_index == old(self)@.start_index,
            final(self)@.wf(),
            ({
                let v = old(self)@;
                &&& r is None <==> word_step(v.chars, v.start_index, v.index) is Fail
                &&& r matches Some(kind) ==> word_step(v.chars, v.start_index, v.index) == Step::Emit(
                    final(self)@.index,
                    kind.tag(),
                    kind.text(),
                )
                    && final(self)@ == (LexerView { index: final(self)@.index, pos: pos_at(v.chars, final(self)@.index), ..v })
            }),
    {
        let ghost s = self@.chars;
        let ghost j = self@.index;
        let ghost v0 = self@;
        loop
            invariant_except_break
                self@.wf(),
                self@ == (LexerView { index: self@.index, pos: self@.pos, ..v0 }),
                j <= self@.index,
                v0.wf(),
                v0 == old(self)@,
                s == v0.chars,
                j == v0.index,
                forall|k: int| j <= k < self@.index ==> in_class(#[trigger] s[k], CharClass::Letter),
            ensures
                self@.wf(),
                v0.wf(),
                s == v0.chars,
                j == v0.index,
                self@ == (LexerView { index: self@.index, pos: self@.pos, ..v0 }),
                j <= self@.index < s.len(),
                forall|k: int| j <= k < self@.index ==> in_class(#[trigger] s[k], CharClass::Letter),
                !in_class(s[self@.index], CharClass::Letter),
            decreases s.len() - self@.index,
        {
            match self.peek() {
                Some(c) => {
                    if is_alphabetic(c) {
                        self.advance();
                    } else {
                        break;
                    }
                },
                None => {
                    proof {
                        lemma_run_end_at(s, j, self@.index, CharClass::Letter);
                    }
                    return None;
                },
            }
        }
        proof {
            lemma_run_end_at(s, j, self@.index, CharClass::Letter);
        }
        let ghost w = s.subrange(self@.start_index, self@.index);
        match keyword_kind(&self.chars, self.start_index, self.index) {
            Some(k) => return Some(k),
            None => {},
        }
        let first = self.chars[self.start_index];
        proof {
            lemma_single_byte(w);
        }
        if self.index - self.start_index == 1 && len_utf8(first) == 1 && is_uppercase(first) {
            Some(TokenKind::Var(first))
        } else {
            Some(TokenKind::Error(self.current_lexeme()))
        }
    }

    /// Records a token of the given kind spanning the current token's text.
    fn add_token(&mut self, kind: TokenKind)
        requires
            old(self)@.wf(),
        ensures
            final(self)@ == (LexerView {
                tokens: old(self)@.tokens.push(TokenView {
                    tag: kind.tag(),
                    text: kind.text(),
                    span: span_of(old(self)@.chars, old(self)@.start_index, old(self)@.index),
                }),
                ..old(self)@
            }),
    {
        proof {
            lemma_pos_at_mono(self@.chars, self@.start_index, self@.index);
        }
        let t = Token::new(kind, Span::new(self.start, self.pos));
        let ghost before = self.tokens@;
        self.tokens.push(t);
        proof {
            assert(token_views(self.tokens@) =~= token_views(before).push(t@));
        }
    }

    /// The tokens of `input`, closed by the end-of-input token.
    pub fn lex(input: &str) -> (tokens: Vec<Token>)
        requires
            utf8_len(input@) < usize::MAX,
            lexable(input@),
        ensures
            token_views(tokens@) == lex_spec(input@).unwrap(),
    {
        match Self::try_lex(input) {
            Some(tokens) => tokens,
            None => Vec::new(),
        }
    }

    /// The tokens of `input`, or `None` where `lex` stops with a panic.
    pub fn try_lex(input: &str) -> (r: Option<Vec<Token>>)
        requires
            utf8_len(input@) < usize::MAX,
        ensures
            r is Some <==> lexable(input@),
            r matches Some(tokens) ==> token_views(tokens@) == lex_spec(input@).unwrap(),
    {
        let mut lexer = Lexer::new(input);
        let ghost s = input@;
        proof {
            assert(lexer@.wf());
        }
        while !lexer.is_at_end()
            invariant
                lexer@.wf(),
                lexer@.chars == s,
                s == input@,
                tokens_from(s, 0) is Some <==> tokens_from(s, lexer@.index) is Some,
                tokens_from(s, lexer@.index) matches Some(rest) ==> tokens_from(s, 0).unwrap()
                    == lexer@.tokens + rest,
            decreases s.len() - lexer@.index,
        {
            let ghost i = lexer@.index;
            lexer.start = lexer.pos;
            lexer.start_index = lexer.index;
            proof {
                lemma_scan_step_bounds(s, i, i);
            }
            if lexer.try_scan() {
                proof {
                    match scan_step(s, i, i) {
                        Step::Emit(k, tag, text) => {
                            if let Some(rest) = tokens_from(s, k) {
                                assert(seq![TokenView { tag, text, span: span_of(s, i, k) }] + rest
                                    =~= seq![TokenView { tag, text, span: span_of(s, i, k) }] + rest);
                            }
                        },
                        _ => {},
                    }
                }
            } else {
                proof {
                    assert(tokens_from(s, i) is None);
                }
                return None;
            }
        }
        let ghost before = lexer@.tokens;
        let eof = Token::new(TokenKind::EOF, Span::new(lexer.pos, lexer.pos));
        lexer.tokens.push(eof);
        proof {
            assert(tokens_from(s, lexer@.index) == Some(Seq::<TokenView>::empty()));
            assert(token_views(lexer.tokens@) =~= before.push(eof@));
        }
        Some(lexer.tokens)
    }
}


// ---------------------------------------------------------------------------
// Laws of the lexer.
// ---------------------------------------------------------------------------

/// No step of the lexer makes an end-of-input token.
proof fn lemma_step_not_eof(s: Seq<char>, st: int, i: int)
    requires
        0 <= st <= i < s.len(),
    ensures
        scan_step(s, st, i) matches Step::Emit(_, tag, _) ==> tag != TokenTag::EOF,
{
}

/// The tokens read from `i` on are no end-of-input tokens, and their spans lie
/// in order between the positions of `i` and of the end.
proof fn lemma_tokens_from(s: Seq<char>, i: int)
    requires
        0 <= i <= s.len(),
        utf8_len(s) < usize::MAX,
        tokens_from(s, i) is Some,
    ensures
        ({
            let ts = tokens_from(s, i).unwrap();
            &&& forall|a: int| 0 <= a < ts.len() ==> (#[trigger] ts[a]).tag != TokenTag::EOF
            &&& forall|a: int|
                0 <= a < ts.len() ==> pos_at(s, i).pos <= (#[trigger] ts[a]).span.start.pos
                    <= ts[a].span.end.pos <= pos_at(s, s.len() as int).pos
            &&& forall|a: int|
                0 <= a < ts.len() ==> (#[trigger] ts[a]).span.len == ts[a].span.end.pos
                    - ts[a].span.start.pos
            &&& forall|a: int, b: int|
                0 <= a < b < ts.len() ==> (#[trigger] ts[a]).span.end.pos <= (#[trigger] ts[b]).span.start.pos
        }),
    decreases s.len() - i,
{
    if i < s.len() {
        lemma_step_not_eof(s, i, i);
        lemma_scan_step_bounds(s, i, i);
        match scan_step(s, i, i) {
            Step::Skip(k) => {
                lemma_tokens_from(s, k);
                lemma_pos_at_mono(s, i, k);
            },
            Step::Emit(k, tag, text) => {
                lemma_tokens_from(s, k);
                lemma_pos_at_mono(s, i, k);
                lemma_pos_at_mono(s, k, s.len() as int);
                let rest = tokens_from(s, k).unwrap();
                let ts = tokens_from(s, i).unwrap();
                assert(ts == seq![TokenView { tag, text, span: span_of(s, i, k) }] + rest);
                assert forall|a: int| 0 < a < ts.len() implies #[trigger] ts[a] == rest[a - 1] by {}
            },
            Step::Fail => {},
        }
    }
}

/// The lexer's tokens end with one end-of-input token and hold no other; the
/// spans of the tokens come in order without overlapping, each span's length
/// is the distance between its ends, and the end-of-input token stands at the
/// end of the input, its byte offset the input's length in bytes.
pub proof fn lemma_lex_tokens(s: Seq<char>)
    requires
        utf8_len(s) < usize::MAX,
        lexable(s),
    ensures
        ({
            let ts = lex_spec(s).unwrap();
            &&& ts.len() >= 1
            &&& ts.last().tag == TokenTag::EOF
            &&& ts.last().span.start.pos == encode_utf8(s).len()
            &&& forall|a: int| 0 <= a < ts.len() - 1 ==> (#[trigger] ts[a]).tag != TokenTag::EOF
            &&& forall|a: int|
                0 <= a < ts.len() ==> (#[trigger] ts[a]).span.start.pos <= ts[a].span.end.pos
                    && ts[a].span.len == ts[a].span.end.pos - ts[a].span.start.pos
            &&& forall|a: int, b: int|
                0 <= a < b < ts.len() ==> (#[trigger] ts[a]).span.end.pos <= (#[trigger] ts[b]).span.start.pos
        }),
{
    lemma_tokens_from(s, 0);
    lemma_pos_at(s, s.len() as int);
    lemma_utf8_len_encode(s);
    assert(s.take(s.len() as int) =~= s);
    let rest = tokens_from(s, 0).unwrap();
    let ts = lex_spec(s).unwrap();
    assert(ts == rest.push(eof_token(s)));
    assert forall|a: int| 0 <= a < rest.len() implies #[trigger] ts[a] == rest[a] by {}
}

/// The width of a sequence in UTF-8, counted from the front.
proof fn lemma_utf8_len_front(s: Seq<char>)
    requires
        s.len() > 0,
    ensures
        utf8_len(s) == utf8_width(s[0]) + utf8_len(s.drop_first()),
    decreases s.len(),
{
    if s.len() > 1 {
        lemma_utf8_len_front(s.drop_last());
        assert(s.drop_last().drop_first() =~= s.drop_first().drop_last());
        assert(s.drop_first().last() == s.last());
    } else {
        assert(s.drop_last() =~= Seq::<char>::empty());
        assert(s.drop_first() =~= Seq::<char>::empty());
    }
}

/// The width counted here is the length of the UTF-8 encoding.
pub proof fn lemma_utf8_len_encode(s: Seq<char>)
    ensures
        utf8_len(s) == encode_utf8(s).len(),
    decreases s.len(),
{
    if s.len() > 0 {
        lemma_utf8_len_front(s);
        lemma_utf8_len_encode(s.drop_first());
    }
}

} // verus!
