//! The single-pass compiler: source text to bytecode, by precedence
//! climbing over the tokens as the lexer hands them out.
use vstd::prelude::*;
use vstd::string::*;
use crate::chunk::{Chunk, OpCode};
use crate::course::complaint_of;
use crate::error::{parser_error, texts};
use crate::host::Host;
use crate::parser::{lemma_reads_binary, reads_as};
use crate::scanner::{lemma_next_token_advances, tokens_from, Scanner};
use crate::syntax::{
    binds, expr_pieces, fitted, lemma_spelled_join, lemma_spelled_one, lemma_spelled_push,
    operator_level, spelled, Expr, LiteralValue, Piece, Source,
};
use crate::token::{Token, TokenType, TokenView};
use crate::value::{Value, ValueView};

verus! {

/// The levels of precedence, lowest first.
#[derive(Debug, Clone, Copy, PartialEq, Eq, Structural)]
pub enum Precedence {
    Lowest,
    Assignment,  // =
    Or,  // or
    And,  // and
    Equality,  // == !=
    Comparison,  // < > <= >=
    Term,  // + -
    Factor,  // * /
    Unary,  // ! -
    Call,  // . ()
    Primary,
}

/// The emitters.
#[derive(Debug, Clone, Copy, PartialEq, Eq, Structural)]
pub enum ParseFn {
    Grouping,
    Unary,
    Binary,
    Number,
    Text,
    Literal,
}

/// What the compiler does with a token: the emitter for the token at the
/// start of an expression, the emitter for the token between two operands,
/// and the precedence of the token as an operator.
#[derive(Debug, Clone, Copy, PartialEq, Eq, Structural)]
pub struct ParseRule {
    pub prefix: Option<ParseFn>,
    pub infix: Option<ParseFn>,
    pub precedence: Precedence,
}

impl Precedence {
    /// The level as a number, the lowest being zero.
    pub open spec fn level(self) -> nat {
        match self {
            Precedence::Lowest => 0,
            Precedence::Assignment => 1,
            Precedence::Or => 2,
            Precedence::And => 3,
            Precedence::Equality => 4,
            Precedence::Comparison => 5,
            Precedence::Term => 6,
            Precedence::Factor => 7,
            Precedence::Unary => 8,
            Precedence::Call => 9,
            Precedence::Primary => 10,
        }
    }

    pub fn rank(self) -> (r: u8)
        ensures
            r == self.level(),
    {
        match self {
            Precedence::Lowest => 0,
            Precedence::Assignment => 1,
            Precedence::Or => 2,
            Precedence::And => 3,
            Precedence::Equality => 4,
            Precedence::Comparison => 5,
            Precedence::Term => 6,
            Precedence::Factor => 7,
            Precedence::Unary => 8,
            Precedence::Call => 9,
            Precedence::Primary => 10,
        }
    }

    /// The level with the number `i`; the highest for a number above all
    /// levels.
    pub fn from(i: u8) -> (r: Precedence)
        ensures
            r.level() == (if i <= 10 {
                i as nat
            } else {
                10
            }),
    {
        if i == 0 {
            Precedence::Lowest
        } else if i == 1 {
            Precedence::Assignment
        } else if i == 2 {
            Precedence::Or
        } else if i == 3 {
            Precedence::And
        } else if i == 4 {
            Precedence::Equality
        } else if i == 5 {
            Precedence::Comparison
        } else if i == 6 {
            Precedence::Term
        } else if i == 7 {
            Precedence::Factor
        } else if i == 8 {
            Precedence::Unary
        } else if i == 9 {
            Precedence::Call
        } else {
            Precedence::Primary
        }
    }

    /// The next higher level; the highest stays.
    pub fn next(self) -> (r: Precedence)
        ensures
            r.level() == (if self.level() < 10 {
                self.level() + 1
            } else {
                10
            }),
    {
        Precedence::from(self.rank() + 1)
    }
}

/// The precedence of a token as a binary operator; the lowest for a token
/// that is none.
pub open spec fn precedence_of(typ: TokenType) -> Precedence {
    match typ {
        TokenType::Minus | TokenType::Plus => Precedence::Term,
        TokenType::Slash | TokenType::Star => Precedence::Factor,
        TokenType::BangEqual | TokenType::EqualEqual => Precedence::Equality,
        TokenType::Greater | TokenType::GreaterEqual | TokenType::Less | TokenType::LessEqual =>
            Precedence::Comparison,
        _ => Precedence::Lowest,
    }
}

/// The emitter for a token with which an expression starts.
pub open spec fn prefix_of(typ: TokenType) -> Option<ParseFn> {
    match typ {
        TokenType::LeftParen => Some(ParseFn::Grouping),
        TokenType::Minus | TokenType::Bang => Some(ParseFn::Unary),
        TokenType::Number => Some(ParseFn::Number),
        TokenType::String => Some(ParseFn::Text),
        TokenType::False | TokenType::Nil | TokenType::True => Some(ParseFn::Literal),
        _ => None,
    }
}

/// The rule for a token: the binary operators, and they alone, have an
/// emitter between operands and a precedence above the lowest.
pub open spec fn rule_of(typ: TokenType) -> ParseRule {
    ParseRule {
        prefix: prefix_of(typ),
        infix: if precedence_of(typ) == Precedence::Lowest {
            None
        } else {
            Some(ParseFn::Binary)
        },
        precedence: precedence_of(typ),
    }
}

/// The instructions for a binary operator: one, or one and `OpNot` behind
/// it.
pub open spec fn binary_code(typ: TokenType) -> Seq<OpCode> {
    match typ {
        TokenType::BangEqual => seq![OpCode::OpEqual, OpCode::OpNot],
        TokenType::EqualEqual => seq![OpCode::OpEqual],
        TokenType::Greater => seq![OpCode::OpGreater],
        TokenType::GreaterEqual => seq![OpCode::OpLess, OpCode::OpNot],
        TokenType::Less => seq![OpCode::OpLess],
        TokenType::LessEqual => seq![OpCode::OpGreater, OpCode::OpNot],
        TokenType::Plus => seq![OpCode::OpAdd],
        TokenType::Minus => seq![OpCode::OpSubtract],
        TokenType::Star => seq![OpCode::OpMultiply],
        TokenType::Slash => seq![OpCode::OpDivide],
        _ => seq![],
    }
}

/// The instructions for a unary operator.
pub open spec fn unary_code(typ: TokenType) -> Seq<OpCode> {
    match typ {
        TokenType::Bang => seq![OpCode::OpNot],
        TokenType::Minus => seq![OpCode::OpNegate],
        _ => seq![],
    }
}

/// The instructions for the literals `false`, `nil` and `true`.
pub open spec fn literal_code(typ: TokenType) -> Seq<OpCode> {
    match typ {
        TokenType::False => seq![OpCode::OpFalse],
        TokenType::Nil => seq![OpCode::OpNil],
        TokenType::True => seq![OpCode::OpTrue],
        _ => seq![],
    }
}

impl ParseRule {
    pub fn new(prefix: Option<ParseFn>, infix: Option<ParseFn>, precedence: Precedence) -> (r: Self)
        ensures
            r == (ParseRule { prefix, infix, precedence }),
    {
        ParseRule { prefix, infix, precedence }
    }
}

/// The rule for a token.
pub fn get_rule(typ: TokenType) -> (r: ParseRule)
    ensures
        r == rule_of(typ),
{
    let binary = Some(ParseFn::Binary);
    match typ {
        TokenType::LeftParen => ParseRule::new(Some(ParseFn::Grouping), None, Precedence::Lowest),
        TokenType::Minus => ParseRule::new(Some(ParseFn::Unary), binary, Precedence::Term),
        TokenType::Plus => ParseRule::new(None, binary, Precedence::Term),
        TokenType::Slash => ParseRule::new(None, binary, Precedence::Factor),
        TokenType::Star => ParseRule::new(None, binary, Precedence::Factor),
        TokenType::Bang => ParseRule::new(Some(ParseFn::Unary), None, Precedence::Lowest),
        TokenType::BangEqual => ParseRule::new(None, binary, Precedence::Equality),
        TokenType::EqualEqual => ParseRule::new(None, binary, Precedence::Equality),
        TokenType::Greater => ParseRule::new(None, binary, Precedence::Comparison),
        TokenType::GreaterEqual => ParseRule::new(None, binary, Precedence::Comparison),
        TokenType::Less => ParseRule::new(None, binary, Precedence::Comparison),
        TokenType::LessEqual => ParseRule::new(None, binary, Precedence::Comparison),
        TokenType::String => ParseRule::new(Some(ParseFn::Text), None, Precedence::Lowest),
        TokenType::Number => ParseRule::new(Some(ParseFn::Number), None, Precedence::Lowest),
        TokenType::False => ParseRule::new(Some(ParseFn::Literal), None, Precedence::Lowest),
        TokenType::Nil => ParseRule::new(Some(ParseFn::Literal), None, Precedence::Lowest),
        TokenType::True => ParseRule::new(Some(ParseFn::Literal), None, Precedence::Lowest),
        _ => ParseRule::new(None, None, Precedence::Lowest),
    }
}

/// The literals of an expression that become constants, in the order in
/// which the expression is compiled: the numbers and the strings.
pub open spec fn literals_of(e: Expr) -> Seq<LiteralValue>
    decreases e,
{
    match e {
        Expr::Literal { value } => match value {
            LiteralValue::Number(_) | LiteralValue::String(_) => seq![value],
            _ => Seq::empty(),
        },
        Expr::Grouping { expression } => literals_of(*expression),
        Expr::Unary { right, .. } => literals_of(*right),
        Expr::Binary { left, right, .. } => literals_of(*left) + literals_of(*right),
        _ => Seq::empty(),
    }
}

/// The instructions for an expression whose first constant gets the index
/// `base`: the operands come before their operator, the left before the
/// right. Of the expressions of the language, those made of literals,
/// parentheses and the unary and binary operators have instructions.
pub open spec fn code_of(e: Expr, base: nat) -> Seq<OpCode>
    decreases e,
{
    match e {
        Expr::Literal { value } => match value {
            LiteralValue::Boolean(b) => if b {
                seq![OpCode::OpTrue]
            } else {
                seq![OpCode::OpFalse]
            },
            LiteralValue::Null => seq![OpCode::OpNil],
            _ => seq![OpCode::OpConstant(base as usize)],
        },
        Expr::Grouping { expression } => code_of(*expression, base),
        Expr::Unary { operator, right } => code_of(*right, base) + unary_code(operator.tpe),
        Expr::Binary { left, operator, right } => code_of(*left, base) + code_of(
            *right,
            base + literals_of(*left).len(),
        ) + binary_code(operator.tpe),
        _ => Seq::empty(),
    }
}

/// Whether `value` is the constant for `literal`: for a number what the
/// host reads in the numeral, for a string its text.
pub open spec fn compiles_literal<H: Host>(host: &H, literal: LiteralValue, value: ValueView) -> bool {
    match literal {
        LiteralValue::Number(text) => value matches ValueView::Number(n) && call_ensures(
            H::parse_number,
            (host, &text),
            n,
        ),
        LiteralValue::String(text) => value == ValueView::Text(text@),
        _ => false,
    }
}

/// `after` is `before` with the instructions and the constants of `e`
/// behind what it held.
pub open spec fn emitted<H: Host>(host: &H, e: Expr, before: Chunk, after: Chunk) -> bool {
    &&& after.code@ =~= before.code@ + code_of(e, before.constants@.len())
    &&& after.constants@.len() == before.constants@.len() + literals_of(e).len()
    &&& forall|k: int|
        0 <= k < before.constants@.len() ==> (#[trigger] after.constants@[k])
            == before.constants@[k]
    &&& forall|k: int|
        0 <= k < literals_of(e).len() ==> compiles_literal(
            host,
            #[trigger] literals_of(e)[k],
            after.constants@[before.constants@.len() + k]@,
        )
}

/// `count` times the line `line`.
pub open spec fn same_line(count: nat, line: usize) -> Seq<usize> {
    Seq::new(count, |i: int| line)
}

/// The lines of the instructions of `e`, which the tokens from `from` on
/// say. An instruction has the line of the token consumed last before it is
/// emitted: a literal that of its own token, an operator that of the last
/// token of its last operand.
pub open spec fn lines_of(e: Expr, tokens: Seq<Token>, from: int) -> Seq<usize>
    decreases e,
{
    let last = from + expr_pieces(e).len() - 1;
    match e {
        Expr::Literal { .. } => seq![tokens[from].line],
        Expr::Grouping { expression } => lines_of(*expression, tokens, from + 1),
        Expr::Unary { operator, right } => lines_of(*right, tokens, from + 1) + same_line(
            unary_code(operator.tpe).len(),
            tokens[last].line,
        ),
        Expr::Binary { left, operator, right } => lines_of(*left, tokens, from) + lines_of(
            *right,
            tokens,
            from + expr_pieces(*left).len() + 1,
        ) + same_line(binary_code(operator.tpe).len(), tokens[last].line),
        _ => Seq::empty(),
    }
}

/// `after` is `before` with the lines of the instructions of `e` behind
/// what it held.
pub open spec fn lined(e: Expr, tokens: Seq<Token>, from: int, before: Chunk, after: Chunk) -> bool {
    after.lines@ =~= before.lines@ + lines_of(e, tokens, from)
}

/// The lines of the instructions of an expression are the same among more
/// tokens.
pub proof fn lemma_lines_among(e: Expr, fewer: Seq<Token>, more: Seq<Token>, from: int)
    requires
        0 <= from,
        from + expr_pieces(e).len() <= fewer.len() <= more.len(),
        forall|i: int| 0 <= i < fewer.len() ==> more[i] == fewer[i],
    ensures
        lines_of(e, fewer, from) == lines_of(e, more, from),
    decreases e,
{
    match e {
        Expr::Grouping { expression } => {
            lemma_lines_among(*expression, fewer, more, from + 1);
        },
        Expr::Unary { operator, right } => {
            lemma_lines_among(*right, fewer, more, from + 1);
        },
        Expr::Binary { left, operator, right } => {
            lemma_lines_among(*left, fewer, more, from);
            lemma_lines_among(*right, fewer, more, from + expr_pieces(*left).len() + 1);
        },
        _ => {},
    }
}

/// The tokens as mathematical values.
pub open spec fn views(tokens: Seq<Token>) -> Seq<TokenView> {
    Seq::new(tokens.len(), |i: int| tokens[i]@)
}

/// `chunk` is the bytecode of `source`: the tokens of the source, with the
/// end of input last, say the expression `e`, and the chunk holds the
/// instructions of `e`, then `OpReturn`, their lines, of which that of
/// `OpReturn` is the line of the end of input, and the constants of `e`.
pub open spec fn is_compiled<H: Host>(
    host: &H,
    source: Seq<char>,
    tokens: Seq<Token>,
    e: Expr,
    chunk: Chunk,
) -> bool {
    &&& views(tokens) =~= tokens_from(source, 0)
    &&& tokens.len() >= 1
    &&& reads_as(e, Source { tokens, first: 0 }, 0, tokens.len() - 1, 1)
    &&& chunk.code@ =~= code_of(e, 0) + seq![OpCode::OpReturn]
    &&& chunk.lines@ =~= lines_of(e, tokens, 0) + seq![tokens[tokens.len() - 1].line]
    &&& chunk.constants@.len() == literals_of(e).len()
    &&& forall|k: int|
        0 <= k < literals_of(e).len() ==> compiles_literal(
            host,
            #[trigger] literals_of(e)[k],
            chunk.constants@[k]@,
        )
}

/// What the tokens up to `to` spell they spell among more tokens too.
pub proof fn lemma_spelled_among(
    pieces: Seq<Piece>,
    fewer: Seq<Token>,
    more: Seq<Token>,
    from: int,
    to: int,
)
    requires
        spelled(pieces, Source { tokens: fewer, first: 0 }, from, to),
        fewer.len() <= more.len(),
        forall|i: int| 0 <= i < fewer.len() ==> more[i] == fewer[i],
    ensures
        spelled(pieces, Source { tokens: more, first: 0 }, from, to),
{
    reveal(fitted);
}

/// An operator's precedence in the table is the level at which it binds.
pub proof fn lemma_levels_agree(typ: TokenType)
    ensures
        precedence_of(typ).level() == (if operator_level(typ) >= 4 {
            operator_level(typ)
        } else {
            0
        }),
{
}

/// How far the compiler comes over the tokens of a source: the index of
/// the token at which it stands, or the first diagnostic, behind which it
/// reports no other.
pub struct Reach {
    pub at: int,
    pub failed: Option<Seq<char>>,
}

/// The token at index `i`; outside the tokens, an end-of-input token of
/// line zero.
pub open spec fn view_at(ts: Seq<TokenView>, i: int) -> TokenView {
    if 0 <= i < ts.len() {
        ts[i]
    } else {
        TokenView { tpe: TokenType::EOF, lexeme: ""@, line: 0 }
    }
}

/// The compiler has come to the token at `at` and has reported nothing.
pub open spec fn come(at: int) -> Reach {
    Reach { at, failed: None }
}

/// The compiler has failed with `message` about the token at `at`.
pub open spec fn failed_at(ts: Seq<TokenView>, at: int, message: Seq<char>) -> Reach {
    Reach { at, failed: Some(complaint_of(view_at(ts, at), message)) }
}

/// The compiler steps from the token at `at` to the next token. An error
/// token there is reported with the lexer's message.
pub open spec fn stepped(ts: Seq<TokenView>, at: int) -> Reach {
    if view_at(ts, at + 1).tpe == TokenType::Error {
        failed_at(ts, at + 1, view_at(ts, at + 1).lexeme)
    } else {
        come(at + 1)
    }
}

/// The compiler steps over the token at `at` if it is of kind `tpe`, and
/// reports `message` there if it is not.
pub open spec fn expected(ts: Seq<TokenView>, at: int, tpe: TokenType, message: Seq<char>) -> Reach {
    if view_at(ts, at).tpe == tpe {
        stepped(ts, at)
    } else {
        failed_at(ts, at, message)
    }
}

/// How far the compiler comes behind a token with which an expression
/// starts and whose emitter is `rule`, standing at the token at `at`: over
/// an expression and the closing parenthesis behind an opening one, over an
/// operand behind a unary operator, and no further behind a literal.
pub open spec fn prefix_reach(ts: Seq<TokenView>, at: int, rule: ParseFn) -> Reach
    decreases ts.len() - at, 5int,
{
    match rule {
        ParseFn::Grouping => {
            let inner = operand_reach(ts, at, 1);
            if inner.failed is Some {
                inner
            } else {
                expected(ts, inner.at, TokenType::RightParen, "Expect ')' after expression."@)
            }
        },
        ParseFn::Unary => operand_reach(ts, at, 8),
        _ => come(at),
    }
}

/// How far the compiler comes over what binds at least as tightly as
/// `level`, from the token at `at` on: over that token, with which an
/// expression must start, over what its emitter reads, and over the
/// operators of at least that level with their right operands.
pub open spec fn operand_reach(ts: Seq<TokenView>, at: int, level: nat) -> Reach
    decreases ts.len() - at, 4int,
{
    let next = stepped(ts, at);
    if next.failed is Some {
        next
    } else {
        match prefix_of(view_at(ts, at).tpe) {
            None => failed_at(ts, at, "Expect expression."@),
            Some(rule) => {
                let first = if 0 <= at < ts.len() {
                    prefix_reach(ts, at + 1, rule)
                } else {
                    next
                };
                if first.failed is Some || first.at <= at || first.at > ts.len() {
                    first
                } else {
                    operators_reach(ts, first.at, level)
                }
            },
        }
    }
}

/// How far the compiler comes over the operators of at least `level` and
/// their right operands, from the token at `at` on.
pub open spec fn operators_reach(ts: Seq<TokenView>, at: int, level: nat) -> Reach
    decreases ts.len() - at, 2int,
{
    let operator = view_at(ts, at).tpe;
    if 0 <= at < ts.len() && level <= precedence_of(operator).level() {
        let next = stepped(ts, at);
        let right = operand_reach(ts, at + 1, precedence_of(operator).level() + 1);
        if next.failed is Some {
            next
        } else if right.failed is Some || right.at <= at || right.at > ts.len() {
            right
        } else {
            operators_reach(ts, right.at, level)
        }
    } else {
        come(at)
    }
}

/// How far the compiler comes over a source of one expression.
pub open spec fn compile_reach(ts: Seq<TokenView>) -> Reach {
    let start = stepped(ts, -1);
    let read = operand_reach(ts, 0, 1);
    if start.failed is Some {
        start
    } else if read.failed is Some {
        read
    } else {
        expected(ts, read.at, TokenType::EOF, "Expect end of expression."@)
    }
}

/// The token before the one at which the compiler stands, that token, and
/// whether an error was reported and is still being recovered from.
struct Parser {
    current: Token,
    previous: Token,
    had_error: bool,
    panic_mode: bool,
}

/// A compiler of one expression at a time.
pub struct Compiler {
    parser: Parser,
    compiling_chunk: Chunk,
    scanner: Scanner,
    diagnostics: Vec<String>,
    seen: Ghost<Seq<Token>>,
}

impl Compiler {
    /// The diagnostics reported so far, oldest first.
    pub closed spec fn reports(&self) -> Seq<String> {
        self.diagnostics@
    }

    /// Whether the source compiled last did not compile.
    pub closed spec fn failed(&self) -> bool {
        self.parser.had_error
    }

    /// The bytecode emitted so far.
    pub closed spec fn emitted(&self) -> Chunk {
        self.compiling_chunk
    }

    /// The lexer and the chunk are in order.
    pub closed spec fn wf(&self) -> bool {
        &&& self.scanner.wf()
        &&& self.compiling_chunk.wf()
        &&& self.compiling_chunk.closed()
        &&& self.parser.panic_mode == self.parser.had_error
        &&& self.parser.current.tpe != TokenType::Error
        &&& self.parser.previous.tpe != TokenType::Error
    }

    /// All the tokens of the source that is being compiled.
    spec fn all(&self) -> Seq<TokenView> {
        tokens_from(self.scanner.text(), 0)
    }

    /// Unless it had failed at `before`, the compiler has since failed as
    /// `goal` says, or `goal` is as far as `rest`.
    spec fn heading(&self, before: &Compiler, goal: Reach, rest: Reach) -> bool {
        !before.parser.had_error ==> if self.parser.had_error {
            goal.failed is Some && texts(self.diagnostics@) =~= texts(before.diagnostics@).push(
                goal.failed->0,
            )
        } else {
            goal == rest && self.diagnostics == before.diagnostics
        }
    }

    /// The token at which the compiler stands is among the tokens of the
    /// source, at its index.
    proof fn lemma_standing(&self)
        requires
            self.in_step(),
            self.seen@.len() > 0,
        ensures
            0 <= self.at() < self.all().len(),
            view_at(self.all(), self.at()) == self.parser.current@,
    {
        assert(views(self.seen@)[self.at()] == self.seen@[self.at()]@);
    }

    /// Unless it had failed at `before`, the compiler has since come as far
    /// as `reach` says: it stands at that token, or it has failed and
    /// reported that diagnostic.
    spec fn reached(&self, before: &Compiler, reach: Reach) -> bool {
        !before.parser.had_error ==> match reach.failed {
            Some(text) => self.parser.had_error && texts(self.diagnostics@) =~= texts(
                before.diagnostics@,
            ).push(text),
            None => !self.parser.had_error && self.at() == reach.at && self.diagnostics
                == before.diagnostics,
        }
    }

    /// Where the token at which the compiler stands is the end of input,
    /// the lexer has read all of its source.
    spec fn primed(&self) -> bool {
        self.parser.current.tpe == TokenType::EOF ==> self.scanner.position()
            == self.scanner.text().len()
    }

    /// What is left to compile: the characters not yet read, and the token
    /// at which the compiler stands unless that is the end of input.
    spec fn measure(&self) -> int {
        self.scanner.text().len() - self.scanner.position() + if self.parser.current.tpe
            != TokenType::EOF {
            1int
        } else {
            0int
        }
    }

    /// The compiler has gone on from `before`: over the same source, with
    /// no less bytecode and no fewer reports, and it has failed if it had
    /// or if it has reported since.
    spec fn after(&self, before: &Compiler) -> bool {
        &&& self.wf()
        &&& self.primed()
        &&& self.scanner.text() == before.scanner.text()
        &&& 0 <= self.measure() <= before.measure()
        &&& before.compiling_chunk.code@.len() <= self.compiling_chunk.code@.len()
        &&& before.diagnostics@.len() <= self.diagnostics@.len()
        &&& self.parser.had_error == (before.parser.had_error || before.diagnostics@.len()
            < self.diagnostics@.len())
        &&& before.parser.had_error ==> self.diagnostics == before.diagnostics
    }

    /// The tokens taken from the lexer, with their numbers.
    spec fn source(&self) -> Source {
        Source { tokens: self.seen@, first: 0 }
    }

    /// The index of the token at which the compiler stands.
    spec fn at(&self) -> int {
        self.seen@.len() - 1
    }

    /// The tokens taken so far are the first tokens of the source, the last
    /// of them is the token at which the compiler stands, and the lexer
    /// stands behind it.
    spec fn in_step(&self) -> bool {
        &&& self.seen@.len() > 0 ==> self.seen@.last() == self.parser.current
        &&& tokens_from(self.scanner.text(), 0) =~= views(self.seen@) + (if self.seen@.len() > 0
            && self.parser.current.tpe == TokenType::EOF {
            Seq::<TokenView>::empty()
        } else {
            tokens_from(self.scanner.text(), self.scanner.position())
        })
    }

    /// The token before the one at which the compiler stands is the token
    /// taken before it.
    spec fn behind(&self) -> bool {
        self.seen@.len() >= 2 && self.seen@[self.seen@.len() - 2] == self.parser.previous
    }

    /// The compiler has taken the tokens that `before` had taken, and
    /// perhaps more.
    spec fn extends(&self, before: &Compiler) -> bool {
        &&& before.seen@.len() <= self.seen@.len()
        &&& forall|i: int| 0 <= i < before.seen@.len() ==> self.seen@[i] == before.seen@[i]
    }

    /// The compiler is in step with the lexer, unless it has failed.
    spec fn tracking(&self) -> bool {
        !self.parser.had_error ==> self.in_step() && self.behind()
    }

    /// Since `before` the compiler has compiled `e`, which the tokens from
    /// `from` up to the one at which it stands say.
    spec fn compiled<H: Host>(
        &self,
        before: &Compiler,
        host: &H,
        e: Expr,
        from: int,
        level: nat,
    ) -> bool {
        &&& self.in_step()
        &&& self.behind()
        &&& self.extends(before)
        &&& reads_as(e, self.source(), from, self.at(), level)
        &&& emitted(host, e, before.compiling_chunk, self.compiling_chunk)
        &&& lined(e, self.seen@, from, before.compiling_chunk, self.compiling_chunk)
    }

    pub fn new() -> (r: Self)
        ensures
            r.wf(),
            !r.failed(),
            r.reports().len() == 0,
    {
        Compiler {
            parser: Parser {
                current: Token::new(TokenType::EOF, "", 0),
                previous: Token::new(TokenType::EOF, "", 0),
                had_error: false,
                panic_mode: false,
            },
            compiling_chunk: Chunk::new(),
            scanner: Scanner::new(""),
            diagnostics: Vec::new(),
            seen: Ghost(Seq::empty()),
        }
    }

    /// The diagnostics reported so far.
    pub fn diagnostics(&self) -> (r: &Vec<String>)
        ensures
            r@ == self.reports(),
    {
        &self.diagnostics
    }

    /// Compiles `source`, one expression, into a chunk that ends with
    /// `OpReturn`. There is a chunk exactly if the compiler comes over all
    /// the tokens of the source without a failure, and it is then the
    /// bytecode of the expression that the tokens say. Of a source that does
    /// not compile the first failure is reported, and no other.
    #[verifier::rlimit(60)]
    pub fn compile<H: Host>(&mut self, source: &str, host: &H) -> (r: Option<Chunk>)
        ensures
            final(self).wf(),
            old(self).reports().len() <= final(self).reports().len(),
            r is None <==> old(self).reports().len() < final(self).reports().len(),
            r is None <==> final(self).failed(),
            r matches Some(chunk) ==> chunk.wf() && chunk.closed() && chunk.code@.len() > 0
                && chunk.code@.last() == OpCode::OpReturn,
            r matches Some(chunk) ==> exists|tokens: Seq<Token>, e: Expr| #[trigger]
                is_compiled(host, source@, tokens, e, chunk),
            r is None <==> compile_reach(tokens_from(source@, 0)).failed is Some,
            r is None ==> texts(final(self).reports()) =~= texts(old(self).reports()).push(
                compile_reach(tokens_from(source@, 0)).failed->0,
            ),
    {
        self.scanner = Scanner::new(source);
        self.compiling_chunk = Chunk::new();
        self.parser.had_error = false;
        self.parser.panic_mode = false;
        self.parser.current = Token::new(TokenType::EOF, "", 0);
        self.parser.previous = Token::new(TokenType::EOF, "", 0);
        self.seen = Ghost(Seq::empty());
        let ghost all = tokens_from(source@, 0);
        let ghost fresh = *self;
        proof {
            assert(fresh.in_step());
            assert(fresh.at() == -1);
        }
        self.advance();
        let ghost started = *self;
        let e = self.expression(host);
        let ghost tokens = self.seen@;
        let ghost compiled = *self;
        self.consume(TokenType::EOF, "Expect end of expression.");
        let ghost ended = *self;
        self.end_compiler();
        proof {
            let start = stepped(all, -1);
            let read = operand_reach(all, 0, 1);
            let whole = compile_reach(all);
            assert(texts(fresh.diagnostics@) == texts(old(self).diagnostics@));
            if started.parser.had_error {
                assert(whole == start);
            } else if compiled.parser.had_error {
                assert(started.at() == 0);
                assert(whole == read);
            } else {
                assert(started.at() == 0);
                assert(whole == expected(all, read.at, TokenType::EOF, "Expect end of expression."@));
            }
        }
        if self.parser.had_error {
            None
        } else {
            let mut chunk = Chunk::new();
            std::mem::swap(&mut chunk, &mut self.compiling_chunk);
            proof {
                assert(compiled.parser.current.tpe == TokenType::EOF);
                assert(views(tokens) =~= tokens_from(source@, 0));
                assert(started.at() == 0);
                assert(chunk.code@ =~= code_of(e@, 0) + seq![OpCode::OpReturn]);
                assert(chunk.lines@ =~= lines_of(e@, tokens, 0) + seq![
                    tokens[tokens.len() - 1].line,
                ]);
                assert(is_compiled(host, source@, tokens, e@, chunk));
            }
            Some(chunk)
        }
    }

    /// Reports `message` at `token`, unless an earlier report is still
    /// being recovered from.
    fn error_at(&mut self, token: &Token, message: &str)
        requires
            old(self).wf(),
        ensures
            final(self).wf(),
            final(self).scanner == old(self).scanner,
            final(self).compiling_chunk == old(self).compiling_chunk,
            final(self).parser.current == old(self).parser.current,
            final(self).parser.previous == old(self).parser.previous,
            final(self).seen == old(self).seen,
            final(self).parser.panic_mode,
            final(self).parser.had_error,
            old(self).parser.panic_mode ==> final(self).diagnostics == old(self).diagnostics,
            !old(self).parser.panic_mode ==> final(self).diagnostics@.len() == old(self).diagnostics@.len() + 1 && final(self).diagnostics@.last()@
                == crate::error::diagnostic(
                token.line as nat,
                crate::error::token_context(token@),
                message@,
            ),
            !old(self).parser.panic_mode && (token.tpe != TokenType::Error || message@
                == token.lexeme@) ==> texts(final(self).diagnostics@) =~= texts(
                old(self).diagnostics@,
            ).push(complaint_of(token@, message@)),
    {
        if self.parser.panic_mode {
            return ;
        }
        self.parser.panic_mode = true;
        self.diagnostics.push(parser_error(token, message));
        self.parser.had_error = true;
        proof {
            reveal(complaint_of);
            assert(texts(self.diagnostics@) =~= texts(old(self).diagnostics@).push(
                self.diagnostics@.last()@,
            ));
        }
    }

    fn error(&mut self, message: &str)
        requires
            old(self).wf(),
        ensures
            final(self).wf(),
            final(self).scanner == old(self).scanner,
            final(self).compiling_chunk == old(self).compiling_chunk,
            final(self).parser.current == old(self).parser.current,
            final(self).parser.previous == old(self).parser.previous,
            final(self).seen == old(self).seen,
            old(self).diagnostics@.len() <= final(self).diagnostics@.len(),
            !old(self).parser.panic_mode ==> old(self).diagnostics@.len() < final(self).diagnostics@.len(),
            final(self).parser.had_error,
            old(self).parser.had_error ==> final(self).diagnostics == old(self).diagnostics,
            !old(self).parser.had_error ==> texts(final(self).diagnostics@) =~= texts(
                old(self).diagnostics@,
            ).push(complaint_of(old(self).parser.previous@, message@)),
    {
        let token = self.parser.previous.clone();
        self.error_at(&token, message);
    }

    fn error_at_current(&mut self, message: &str)
        requires
            old(self).wf(),
        ensures
            final(self).wf(),
            final(self).scanner == old(self).scanner,
            final(self).compiling_chunk == old(self).compiling_chunk,
            final(self).parser.current == old(self).parser.current,
            final(self).parser.previous == old(self).parser.previous,
            final(self).seen == old(self).seen,
            old(self).diagnostics@.len() <= final(self).diagnostics@.len(),
            !old(self).parser.panic_mode ==> old(self).diagnostics@.len() < final(self).diagnostics@.len(),
            final(self).parser.had_error,
            old(self).parser.had_error ==> final(self).diagnostics == old(self).diagnostics,
            !old(self).parser.had_error ==> texts(final(self).diagnostics@) =~= texts(
                old(self).diagnostics@,
            ).push(complaint_of(old(self).parser.current@, message@)),
    {
        let token = self.parser.current.clone();
        self.error_at(&token, message);
    }

    /// Steps to the next token that is no error token; the error tokens on
    /// the way are reported.
    fn advance(&mut self)
        requires
            old(self).wf(),
        ensures
            final(self).wf(),
            final(self).primed(),
            final(self).scanner.text() == old(self).scanner.text(),
            final(self).compiling_chunk == old(self).compiling_chunk,
            final(self).parser.previous == old(self).parser.current,
            final(self).measure() >= 0,
            old(self).primed() ==> final(self).measure() <= old(self).measure(),
            old(self).primed() && old(self).parser.current.tpe != TokenType::EOF ==> final(self).measure() < old(self).measure(),
            old(self).diagnostics@.len() <= final(self).diagnostics@.len(),
            old(self).parser.had_error ==> final(self).parser.had_error,
            old(self).parser.had_error ==> final(self).diagnostics == old(self).diagnostics,
            !old(self).parser.had_error ==> final(self).parser.had_error == (old(self).diagnostics@.len() < final(self).diagnostics@.len()),
            !final(self).parser.had_error && old(self).in_step() && (old(self).seen@.len() > 0
                ==> old(self).parser.current.tpe != TokenType::EOF) ==> final(self).in_step()
                && final(self).seen@ == old(self).seen@.push(final(self).parser.current),
            old(self).in_step() && (old(self).seen@.len() > 0 ==> old(self).primed())
                ==> final(self).reached(old(self), stepped(old(self).all(), old(self).at())),
    {
        self.parser.previous = self.parser.current.clone();
        proof {
            self.scanner.lemma_position();
        }
        let ghost next = stepped(old(self).all(), old(self).at());
        let ghost followed = old(self).in_step() && (old(self).seen@.len() > 0 ==> old(self).primed()) && !old(self).parser.had_error;
        loop
            invariant_except_break
                !self.parser.had_error ==> self.seen == old(self).seen && self.scanner.position()
                    == old(self).scanner.position(),
                self.parser.current == old(self).parser.current,
            invariant
                self.wf(),
                self.scanner.text() == old(self).scanner.text(),
                old(self).scanner.position() <= self.scanner.position()
                    <= self.scanner.text().len(),
                self.compiling_chunk == old(self).compiling_chunk,
                self.parser.previous == old(self).parser.current,
                old(self).diagnostics@.len() <= self.diagnostics@.len(),
                old(self).parser.had_error ==> self.parser.had_error,
                old(self).parser.had_error ==> self.diagnostics == old(self).diagnostics,
                !old(self).parser.had_error ==> self.parser.had_error == (old(self).diagnostics@.len() < self.diagnostics@.len()),
                !self.parser.had_error ==> self.diagnostics == old(self).diagnostics,
                next == stepped(old(self).all(), old(self).at()),
                followed == (old(self).in_step() && (old(self).seen@.len() > 0 ==> old(self).primed()) && !old(self).parser.had_error),
                followed && self.parser.had_error ==> next.failed is Some && texts(
                    self.diagnostics@,
                ) =~= texts(old(self).diagnostics@).push(next.failed->0),
            ensures
                self.wf(),
                self.primed(),
                self.scanner.text() == old(self).scanner.text(),
                old(self).scanner.position() <= self.scanner.position()
                    <= self.scanner.text().len(),
                self.parser.current.tpe != TokenType::EOF ==> old(self).scanner.position()
                    < self.scanner.position(),
                self.compiling_chunk == old(self).compiling_chunk,
                self.parser.previous == old(self).parser.current,
                old(self).diagnostics@.len() <= self.diagnostics@.len(),
                old(self).parser.had_error ==> self.parser.had_error,
                old(self).parser.had_error ==> self.diagnostics == old(self).diagnostics,
                !old(self).parser.had_error ==> self.parser.had_error == (old(self).diagnostics@.len() < self.diagnostics@.len()),
                !self.parser.had_error && old(self).in_step() && (old(self).seen@.len() > 0
                    ==> old(self).parser.current.tpe != TokenType::EOF) ==> self.in_step()
                    && self.seen@ == old(self).seen@.push(self.parser.current),
                followed && self.parser.had_error ==> next.failed is Some && texts(
                    self.diagnostics@,
                ) =~= texts(old(self).diagnostics@).push(next.failed->0),
                followed && !self.parser.had_error ==> next.failed is None && self.seen@.len()
                    == old(self).seen@.len() + 1,
                !self.parser.had_error ==> self.diagnostics == old(self).diagnostics,
            decreases self.scanner.text().len() - self.scanner.position(),
        {
            let ghost before = *self;
            proof {
                self.scanner.lemma_position();
                lemma_next_token_advances(self.scanner.text(), self.scanner.position());
            }
            let token = self.scanner.scan_token();
            self.seen = Ghost(self.seen@.push(token));
            proof {
                if followed && !before.parser.had_error {
                    let text = self.scanner.text();
                    let pos = before.scanner.position();
                    let at = old(self).at();
                    if old(self).seen@.len() > 0 && old(self).parser.current.tpe == TokenType::EOF {
                        assert(old(self).all().len() == old(self).seen@.len()) by {
                            assert(views(old(self).seen@).len() == old(self).seen@.len());
                        }
                        assert(view_at(old(self).all(), at + 1).tpe == TokenType::EOF);
                        assert(token.tpe == TokenType::EOF);
                    } else {
                        assert(tokens_from(text, pos)[0] == token@);
                        assert(old(self).all()[at + 1] == token@);
                    }
                }
            }
            if token.tpe != TokenType::Error {
                self.parser.current = token;
                proof {
                    if !self.parser.had_error && old(self).in_step() && (old(self).seen@.len() > 0
                        ==> old(self).parser.current.tpe != TokenType::EOF) {
                        let text = self.scanner.text();
                        let pos = before.scanner.position();
                        assert(views(self.seen@) =~= views(before.seen@).push(
                            self.parser.current@,
                        ));
                        assert(tokens_from(text, pos) =~= seq![self.parser.current@] + (
                        if self.parser.current.tpe == TokenType::EOF {
                            Seq::<TokenView>::empty()
                        } else {
                            tokens_from(text, self.scanner.position())
                        }));
                    }
                }
                break ;
            }
            let message = token.lexeme.clone();
            self.error_at(&token, message.as_str());
        }
    }

    /// Steps over the token at which the compiler stands if it is of kind
    /// `typ`; reports `message` there if it is not.
    fn consume(&mut self, typ: TokenType, message: &str)
        requires
            old(self).wf(),
            old(self).primed(),
        ensures
            final(self).after(old(self)),
            final(self).compiling_chunk == old(self).compiling_chunk,
            !final(self).parser.had_error ==> old(self).parser.current.tpe == typ && final(self).parser.previous == old(self).parser.current,
            !final(self).parser.had_error && old(self).in_step() && old(self).seen@.len() > 0 && typ
                != TokenType::EOF ==> final(self).in_step() && final(self).seen@ == old(self).seen@.push(final(self).parser.current),
            old(self).in_step() && old(self).seen@.len() > 0 ==> final(self).reached(
                old(self),
                expected(old(self).all(), old(self).at(), typ, message@),
            ),
    {
        if self.parser.current.tpe == typ {
            self.advance();
            return ;
        }
        proof {
            self.scanner.lemma_position();
        }
        self.error_at_current(message);
    }

    /// Appends an instruction, with the line of the token just consumed.
    fn emit_byte(&mut self, byte: OpCode)
        requires
            old(self).wf(),
            byte matches OpCode::OpConstant(k) ==> k < old(self).compiling_chunk.constants@.len(),
        ensures
            final(self).wf(),
            final(self).scanner == old(self).scanner,
            final(self).parser == old(self).parser,
            final(self).diagnostics == old(self).diagnostics,
            final(self).seen == old(self).seen,
            final(self).compiling_chunk.code@ == old(self).compiling_chunk.code@.push(byte),
            final(self).compiling_chunk.lines@ == old(self).compiling_chunk.lines@.push(
                old(self).parser.previous.line,
            ),
            final(self).compiling_chunk.constants == old(self).compiling_chunk.constants,
    {
        let line = self.parser.previous.line;
        self.compiling_chunk.write_chunk(byte, line);
    }

    fn emit_bytes(&mut self, byte1: OpCode, byte2: OpCode)
        requires
            old(self).wf(),
            !(byte1 is OpConstant),
            !(byte2 is OpConstant),
        ensures
            final(self).wf(),
            final(self).scanner == old(self).scanner,
            final(self).parser == old(self).parser,
            final(self).diagnostics == old(self).diagnostics,
            final(self).seen == old(self).seen,
            final(self).compiling_chunk.code@ == old(self).compiling_chunk.code@.push(byte1).push(
                byte2,
            ),
            final(self).compiling_chunk.lines@ == old(self).compiling_chunk.lines@.push(
                old(self).parser.previous.line,
            ).push(old(self).parser.previous.line),
            final(self).compiling_chunk.constants == old(self).compiling_chunk.constants,
    {
        self.emit_byte(byte1);
        self.emit_byte(byte2);
    }

    fn emit_return(&mut self)
        requires
            old(self).wf(),
        ensures
            final(self).wf(),
            final(self).scanner == old(self).scanner,
            final(self).parser == old(self).parser,
            final(self).diagnostics == old(self).diagnostics,
            final(self).seen == old(self).seen,
            final(self).compiling_chunk.code@ == old(self).compiling_chunk.code@.push(
                OpCode::OpReturn,
            ),
            final(self).compiling_chunk.lines@ == old(self).compiling_chunk.lines@.push(
                old(self).parser.previous.line,
            ),
            final(self).compiling_chunk.constants == old(self).compiling_chunk.constants,
    {
        self.emit_byte(OpCode::OpReturn);
    }

    /// Adds a constant to the chunk and hands out its index.
    fn make_constant(&mut self, value: Value) -> (r: usize)
        requires
            old(self).wf(),
        ensures
            final(self).wf(),
            final(self).scanner == old(self).scanner,
            final(self).parser == old(self).parser,
            final(self).diagnostics == old(self).diagnostics,
            final(self).seen == old(self).seen,
            r == old(self).compiling_chunk.constants@.len(),
            final(self).compiling_chunk.constants@ == old(self).compiling_chunk.constants@.push(
                value,
            ),
            final(self).compiling_chunk.code == old(self).compiling_chunk.code,
            final(self).compiling_chunk.lines == old(self).compiling_chunk.lines,
    {
        self.compiling_chunk.add_constant(value)
    }

    /// Adds a constant and the instruction that pushes it.
    fn emit_constant(&mut self, value: Value)
        requires
            old(self).wf(),
        ensures
            final(self).wf(),
            final(self).scanner == old(self).scanner,
            final(self).parser == old(self).parser,
            final(self).diagnostics == old(self).diagnostics,
            final(self).seen == old(self).seen,
            final(self).compiling_chunk.constants@ == old(self).compiling_chunk.constants@.push(
                value,
            ),
            final(self).compiling_chunk.code@ == old(self).compiling_chunk.code@.push(
                OpCode::OpConstant(old(self).compiling_chunk.constants@.len() as usize),
            ),
            final(self).compiling_chunk.lines@ == old(self).compiling_chunk.lines@.push(
                old(self).parser.previous.line,
            ),
    {
        let constant = self.make_constant(value);
        self.emit_byte(OpCode::OpConstant(constant))
    }

    fn end_compiler(&mut self)
        requires
            old(self).wf(),
        ensures
            final(self).wf(),
            final(self).scanner == old(self).scanner,
            final(self).parser == old(self).parser,
            final(self).diagnostics == old(self).diagnostics,
            final(self).seen == old(self).seen,
            final(self).compiling_chunk.code@ == old(self).compiling_chunk.code@.push(
                OpCode::OpReturn,
            ),
            final(self).compiling_chunk.lines@ == old(self).compiling_chunk.lines@.push(
                old(self).parser.previous.line,
            ),
            final(self).compiling_chunk.constants == old(self).compiling_chunk.constants,
    {
        self.emit_return();
    }

    /// A binary operator, just consumed, with its left operand compiled:
    /// compiles the right operand, then emits the operator. `left` is the
    /// left operand, which the tokens from `start` on say and which was
    /// compiled from the chunk `base` on.
    fn binary<H: Host>(
        &mut self,
        host: &H,
        left: Ghost<Expr>,
        start: Ghost<int>,
        base: Ghost<Chunk>,
    ) -> (r: Ghost<Expr>)
        requires
            old(self).wf(),
            old(self).primed(),
            !old(self).parser.had_error ==> {
                &&& old(self).in_step()
                &&& old(self).behind()
                &&& 4 <= operator_level(old(self).parser.previous.tpe)
                &&& reads_as(
                    left@,
                    old(self).source(),
                    start@,
                    old(self).at() - 1,
                    operator_level(old(self).parser.previous.tpe),
                )
                &&& emitted(host, left@, base@, old(self).compiling_chunk)
                &&& lined(left@, old(self).seen@, start@, base@, old(self).compiling_chunk)
            },
        ensures
            final(self).after(old(self)),
            !final(self).parser.had_error ==> {
                &&& final(self).in_step()
                &&& final(self).behind()
                &&& final(self).extends(old(self))
                &&& reads_as(
                    r@,
                    final(self).source(),
                    start@,
                    final(self).at(),
                    operator_level(old(self).parser.previous.tpe),
                )
                &&& emitted(host, r@, base@, final(self).compiling_chunk)
                &&& lined(r@, final(self).seen@, start@, base@, final(self).compiling_chunk)
                &&& precedence_of(final(self).parser.current.tpe).level() <= operator_level(
                    old(self).parser.previous.tpe,
                )
            },
            final(self).reached(
                old(self),
                operand_reach(
                    old(self).all(),
                    old(self).at(),
                    precedence_of(old(self).parser.previous.tpe).level() + 1,
                ),
            ),
        decreases old(self).measure(), 4int,
    {
        // Remember the operator.
        let operator_type = self.parser.previous.tpe;
        let ghost operator = self.parser.previous;
        let ghost o = self.at() - 1;
        proof {
            lemma_levels_agree(operator_type);
        }
        // Compile the right operand.
        let rule_precedence = get_rule(operator_type).precedence.next();
        let right = self.parse_precedence(rule_precedence, host);
        let ghost operand = *self;
        // Emit the operator instruction.
        match operator_type {
            TokenType::BangEqual => self.emit_bytes(OpCode::OpEqual, OpCode::OpNot),
            TokenType::EqualEqual => self.emit_byte(OpCode::OpEqual),
            TokenType::Greater => self.emit_byte(OpCode::OpGreater),
            TokenType::GreaterEqual => self.emit_bytes(OpCode::OpLess, OpCode::OpNot),
            TokenType::Less => self.emit_byte(OpCode::OpLess),
            TokenType::LessEqual => self.emit_bytes(OpCode::OpGreater, OpCode::OpNot),
            TokenType::Plus => self.emit_byte(OpCode::OpAdd),
            TokenType::Minus => self.emit_byte(OpCode::OpSubtract),
            TokenType::Star => self.emit_byte(OpCode::OpMultiply),
            TokenType::Slash => self.emit_byte(OpCode::OpDivide),
            _ => {},
        }
        let ghost whole = Expr::Binary {
            left: Box::new(left@),
            operator,
            right: Box::new(right@),
        };
        proof {
            if !self.parser.had_error {
                assert(self.compiling_chunk.code@ =~= operand.compiling_chunk.code@ + binary_code(
                    operator_type,
                ));
                lemma_spelled_among(
                    expr_pieces(left@),
                    old(self).seen@,
                    self.seen@,
                    start@,
                    o,
                );
                lemma_reads_binary(self.source(), start@, o, self.at(), left@, operator, right@);
                lemma_lines_among(left@, old(self).seen@, self.seen@, start@);
                assert(self.compiling_chunk.lines@ =~= operand.compiling_chunk.lines@ + same_line(
                    binary_code(operator_type).len(),
                    self.seen@[self.at() - 1].line,
                ));
                lemma_emitted_binary(
                    host,
                    left@,
                    operator,
                    right@,
                    base@,
                    old(self).compiling_chunk,
                    operand.compiling_chunk,
                    self.compiling_chunk,
                );
            }
        }
        Ghost(whole)
    }

    /// One of the literals `false`, `nil` and `true`, just consumed.
    fn literal<H: Host>(&mut self, host: &H) -> (r: Ghost<Expr>)
        requires
            old(self).wf(),
            old(self).primed(),
            old(self).tracking(),
            prefix_of(old(self).parser.previous.tpe) == Some(ParseFn::Literal),
        ensures
            final(self).after(old(self)),
            !final(self).parser.had_error ==> final(self).compiled(
                old(self),
                host,
                r@,
                old(self).at() - 1,
                10,
            ),
            final(self).parser == old(self).parser,
            final(self).diagnostics == old(self).diagnostics,
            final(self).seen == old(self).seen,
    {
        proof {
            self.scanner.lemma_position();
        }
        let ghost e = Expr::Literal {
            value: match self.parser.previous.tpe {
                TokenType::False => LiteralValue::Boolean(false),
                TokenType::True => LiteralValue::Boolean(true),
                _ => LiteralValue::Null,
            },
        };
        match self.parser.previous.tpe {
            TokenType::False => self.emit_byte(OpCode::OpFalse),
            TokenType::Nil => self.emit_byte(OpCode::OpNil),
            TokenType::True => self.emit_byte(OpCode::OpTrue),
            _ => {},
        }
        proof {
            if !self.parser.had_error {
                lemma_spelled_one(expr_pieces(e)[0], self.source(), self.at() - 1);
                assert(expr_pieces(e) =~= seq![expr_pieces(e)[0]]);
            }
        }
        Ghost(e)
    }

    /// An expression in parentheses, the opening one just consumed.
    fn grouping<H: Host>(&mut self, host: &H) -> (r: Ghost<Expr>)
        requires
            old(self).wf(),
            old(self).primed(),
            old(self).tracking(),
            old(self).parser.previous.tpe == TokenType::LeftParen,
        ensures
            final(self).after(old(self)),
            !final(self).parser.had_error ==> final(self).compiled(
                old(self),
                host,
                r@,
                old(self).at() - 1,
                10,
            ),
            final(self).reached(
                old(self),
                prefix_reach(old(self).all(), old(self).at(), ParseFn::Grouping),
            ),
        decreases old(self).measure(), 4int,
    {
        let ghost p = self.at() - 1;
        let inner = self.expression(host);
        let ghost inside = *self;
        self.consume(TokenType::RightParen, "Expect ')' after expression.");
        let ghost e = Expr::Grouping { expression: Box::new(inner@) };
        proof {
            if !self.parser.had_error {
                let open = seq![Piece::Kind(TokenType::LeftParen)];
                let q = inside.at();
                lemma_spelled_among(expr_pieces(inner@), inside.seen@, self.seen@, p + 1, q);
                lemma_lines_among(inner@, inside.seen@, self.seen@, p + 1);
                lemma_spelled_one(Piece::Kind(TokenType::LeftParen), self.source(), p);
                lemma_spelled_join(open, expr_pieces(inner@), self.source(), p, p + 1, q);
                lemma_spelled_push(
                    open + expr_pieces(inner@),
                    Piece::Kind(TokenType::RightParen),
                    self.source(),
                    p,
                    q,
                );
            }
        }
        Ghost(e)
    }

    /// A number, just consumed: the constant is what the host reads in the
    /// numeral.
    fn number<H: Host>(&mut self, host: &H) -> (r: Ghost<Expr>)
        requires
            old(self).wf(),
            old(self).primed(),
            old(self).tracking(),
            old(self).parser.previous.tpe == TokenType::Number,
        ensures
            final(self).after(old(self)),
            !final(self).parser.had_error ==> final(self).compiled(
                old(self),
                host,
                r@,
                old(self).at() - 1,
                10,
            ),
            final(self).parser == old(self).parser,
            final(self).diagnostics == old(self).diagnostics,
            final(self).seen == old(self).seen,
    {
        proof {
            self.scanner.lemma_position();
        }
        let ghost e = Expr::Literal { value: LiteralValue::Number(self.parser.previous.lexeme) };
        let value: u64 = host.parse_number(&self.parser.previous.lexeme);
        self.emit_constant(Value::new_number(value));
        proof {
            if !self.parser.had_error {
                lemma_spelled_one(expr_pieces(e)[0], self.source(), self.at() - 1);
                assert(expr_pieces(e) =~= seq![expr_pieces(e)[0]]);
                assert(literals_of(e) =~= seq![
                    LiteralValue::Number(self.parser.previous.lexeme),
                ]);
            }
        }
        Ghost(e)
    }

    /// A string, just consumed.
    fn string<H: Host>(&mut self, host: &H) -> (r: Ghost<Expr>)
        requires
            old(self).wf(),
            old(self).primed(),
            old(self).tracking(),
            old(self).parser.previous.tpe == TokenType::String,
        ensures
            final(self).after(old(self)),
            !final(self).parser.had_error ==> final(self).compiled(
                old(self),
                host,
                r@,
                old(self).at() - 1,
                10,
            ),
            final(self).parser == old(self).parser,
            final(self).diagnostics == old(self).diagnostics,
            final(self).seen == old(self).seen,
    {
        proof {
            self.scanner.lemma_position();
        }
        let ghost e = Expr::Literal { value: LiteralValue::String(self.parser.previous.lexeme) };
        let text = self.parser.previous.lexeme.clone();
        self.emit_constant(Value::new_string(text));
        proof {
            if !self.parser.had_error {
                lemma_spelled_one(expr_pieces(e)[0], self.source(), self.at() - 1);
                assert(expr_pieces(e) =~= seq![expr_pieces(e)[0]]);
                assert(literals_of(e) =~= seq![
                    LiteralValue::String(self.parser.previous.lexeme),
                ]);
            }
        }
        Ghost(e)
    }

    /// A unary operator, just consumed: compiles the operand, then emits
    /// the operator.
    fn unary<H: Host>(&mut self, host: &H) -> (r: Ghost<Expr>)
        requires
            old(self).wf(),
            old(self).primed(),
            old(self).tracking(),
            prefix_of(old(self).parser.previous.tpe) == Some(ParseFn::Unary),
        ensures
            final(self).after(old(self)),
            !final(self).parser.had_error ==> final(self).compiled(
                old(self),
                host,
                r@,
                old(self).at() - 1,
                8,
            ),
            final(self).reached(
                old(self),
                prefix_reach(old(self).all(), old(self).at(), ParseFn::Unary),
            ),
        decreases old(self).measure(), 4int,
    {
        let operator_type = self.parser.previous.tpe;
        let ghost operator = self.parser.previous;
        let ghost p = self.at() - 1;
        // Compile the operand.
        let right = self.parse_precedence(Precedence::Unary, host);
        let ghost operand = *self;
        // Emit the operator instruction.
        match operator_type {
            TokenType::Bang => self.emit_byte(OpCode::OpNot),
            TokenType::Minus => self.emit_byte(OpCode::OpNegate),
            _ => {},
        }
        let ghost e = Expr::Unary { operator, right: Box::new(right@) };
        proof {
            if !self.parser.had_error {
                assert(self.compiling_chunk.code@ =~= operand.compiling_chunk.code@ + unary_code(
                    operator_type,
                ));
                lemma_spelled_one(Piece::Kept(operator), self.source(), p);
                lemma_spelled_join(
                    seq![Piece::Kept(operator)],
                    expr_pieces(right@),
                    self.source(),
                    p,
                    p + 1,
                    self.at(),
                );
                assert(self.compiling_chunk.lines@ =~= operand.compiling_chunk.lines@ + same_line(
                    unary_code(operator_type).len(),
                    self.seen@[self.at() - 1].line,
                ));
            }
        }
        Ghost(e)
    }

    /// Runs the emitter for a token with which an expression starts.
    fn apply<H: Host>(&mut self, rule: ParseFn, host: &H) -> (r: Ghost<Expr>)
        requires
            old(self).wf(),
            old(self).primed(),
            old(self).tracking(),
            prefix_of(old(self).parser.previous.tpe) == Some(rule),
        ensures
            final(self).after(old(self)),
            !final(self).parser.had_error ==> final(self).compiled(
                old(self),
                host,
                r@,
                old(self).at() - 1,
                8,
            ),
            final(self).reached(old(self), prefix_reach(old(self).all(), old(self).at(), rule)),
        decreases old(self).measure(), 5int,
    {
        match rule {
            ParseFn::Grouping => self.grouping(host),
            ParseFn::Unary => self.unary(host),
            ParseFn::Number => self.number(host),
            ParseFn::Text => self.string(host),
            ParseFn::Literal => self.literal(host),
            ParseFn::Binary => Ghost(Expr::Literal { value: LiteralValue::Null }),
        }
    }

    /// Runs the emitter for a token between two operands.
    fn apply_infix<H: Host>(
        &mut self,
        rule: ParseFn,
        host: &H,
        left: Ghost<Expr>,
        start: Ghost<int>,
        base: Ghost<Chunk>,
    ) -> (r: Ghost<Expr>)
        requires
            old(self).wf(),
            old(self).primed(),
            rule_of(old(self).parser.previous.tpe).infix == Some(rule),
            !old(self).parser.had_error ==> {
                &&& old(self).in_step()
                &&& old(self).behind()
                &&& reads_as(
                    left@,
                    old(self).source(),
                    start@,
                    old(self).at() - 1,
                    operator_level(old(self).parser.previous.tpe),
                )
                &&& emitted(host, left@, base@, old(self).compiling_chunk)
                &&& lined(left@, old(self).seen@, start@, base@, old(self).compiling_chunk)
            },
        ensures
            final(self).after(old(self)),
            !final(self).parser.had_error ==> {
                &&& final(self).in_step()
                &&& final(self).behind()
                &&& final(self).extends(old(self))
                &&& reads_as(
                    r@,
                    final(self).source(),
                    start@,
                    final(self).at(),
                    operator_level(old(self).parser.previous.tpe),
                )
                &&& emitted(host, r@, base@, final(self).compiling_chunk)
                &&& lined(r@, final(self).seen@, start@, base@, final(self).compiling_chunk)
                &&& precedence_of(final(self).parser.current.tpe).level() <= operator_level(
                    old(self).parser.previous.tpe,
                )
            },
            final(self).reached(
                old(self),
                operand_reach(
                    old(self).all(),
                    old(self).at(),
                    precedence_of(old(self).parser.previous.tpe).level() + 1,
                ),
            ),
        decreases old(self).measure(), 5int,
    {
        proof {
            lemma_levels_agree(self.parser.previous.tpe);
        }
        match rule {
            ParseFn::Binary => self.binary(host, left, start, base),
            _ => left,
        }
    }

    /// Compiles what binds at least as tightly as `precedence`: steps over
    /// a token and runs its emitter for the start of an expression; then,
    /// while the token ahead is an operator of at least that precedence,
    /// steps over it and runs its emitter between operands. A token with
    /// which no expression starts is reported.
    fn parse_precedence<H: Host>(&mut self, precedence: Precedence, host: &H) -> (r: Ghost<Expr>)
        requires
            old(self).wf(),
            old(self).primed(),
            1 <= precedence.level() <= 8,
            !old(self).parser.had_error ==> old(self).in_step() && old(self).seen@.len() > 0,
        ensures
            final(self).after(old(self)),
            !final(self).parser.had_error ==> final(self).compiled(
                old(self),
                host,
                r@,
                old(self).at(),
                precedence.level(),
            ) && precedence_of(final(self).parser.current.tpe).level() < precedence.level(),
            final(self).reached(
                old(self),
                operand_reach(old(self).all(), old(self).at(), precedence.level()),
            ),
        decreases old(self).measure(), 2int,
    {
        let ghost a = self.at();
        let ghost base = self.compiling_chunk;
        let ghost all = self.all();
        let ghost goal = operand_reach(all, a, precedence.level());
        proof {
            if !self.parser.had_error {
                self.lemma_standing();
            }
        }
        self.advance();
        let ghost stood = *self;
        let prefix_rule = get_rule(self.parser.previous.tpe).prefix;
        match prefix_rule {
            Some(rule) => {
                let mut e = self.apply(rule, host);
                proof {
                    lemma_levels_agree(self.parser.current.tpe);
                    if !old(self).parser.had_error {
                        let next = stepped(all, a);
                        if stood.parser.had_error {
                            assert(goal == next);
                        } else {
                            let first = prefix_reach(all, a + 1, rule);
                            if self.parser.had_error {
                                assert(goal == first);
                            } else {
                                self.lemma_standing();
                                assert(goal == operators_reach(all, first.at, precedence.level()));
                            }
                        }
                    }
                }
                while precedence.rank() <= get_rule(self.parser.current.tpe).precedence.rank()
                    invariant
                        self.after(old(self)),
                        all == old(self).all(),
                        goal == operand_reach(all, a, precedence.level()),
                        self.heading(
                            old(self),
                            goal,
                            operators_reach(all, self.at(), precedence.level()),
                        ),
                        !self.parser.had_error ==> a < self.at() < all.len(),
                        1 <= precedence.level() <= 8,
                        a == old(self).at(),
                        base == old(self).compiling_chunk,
                        !self.parser.had_error ==> self.compiled(old(self), host, e@, a, precedence.level())
                            && binds(e@) >= precedence_of(self.parser.current.tpe).level(),
                    ensures
                        precedence_of(self.parser.current.tpe).level() < precedence.level(),
                        self.heading(old(self), goal, come(self.at())),
                    decreases self.measure(),
                {
                    let ghost before = *self;
                    proof {
                        lemma_levels_agree(self.parser.current.tpe);
                        if !self.parser.had_error {
                            self.lemma_standing();
                        }
                    }
                    self.advance();
                    let ghost stood = *self;
                    match get_rule(self.parser.previous.tpe).infix {
                        Some(infix_rule) => {
                            proof {
                                if !self.parser.had_error {
                                    lemma_spelled_among(
                                        expr_pieces(e@),
                                        before.seen@,
                                        self.seen@,
                                        a,
                                        before.at(),
                                    );
                                    lemma_lines_among(e@, before.seen@, self.seen@, a);
                                }
                            }
                            e = self.apply_infix(infix_rule, host, e, Ghost(a), Ghost(base));
                            proof {
                                lemma_levels_agree(self.parser.current.tpe);
                                if !old(self).parser.had_error && !before.parser.had_error {
                                    let b = before.at();
                                    let rest = operators_reach(all, b, precedence.level());
                                    let next = stepped(all, b);
                                    let right = operand_reach(
                                        all,
                                        b + 1,
                                        precedence_of(before.parser.current.tpe).level() + 1,
                                    );
                                    if stood.parser.had_error {
                                        assert(rest == next);
                                    } else if self.parser.had_error {
                                        assert(rest == right);
                                    } else {
                                        self.lemma_standing();
                                        assert(rest == operators_reach(
                                            all,
                                            right.at,
                                            precedence.level(),
                                        ));
                                    }
                                }
                            }
                        },
                        None => {
                            proof {
                                assert(precedence_of(before.parser.current.tpe).level() >= 1);
                                assert(rule_of(before.parser.current.tpe).infix is Some);
                                assert(false);
                            }
                            break ;
                        },
                    }
                }
                proof {
                    assert(!self.parser.had_error ==> self.compiled(
                        old(self),
                        host,
                        e@,
                        a,
                        precedence.level(),
                    ));
                    assert(!self.parser.had_error ==> precedence_of(
                        self.parser.current.tpe,
                    ).level() < precedence.level());
                }
                e
            },
            None => {
                self.error("Expect expression.");
                Ghost(Expr::Literal { value: LiteralValue::Null })
            },
        }
    }

    fn expression<H: Host>(&mut self, host: &H) -> (r: Ghost<Expr>)
        requires
            old(self).wf(),
            old(self).primed(),
            !old(self).parser.had_error ==> old(self).in_step() && old(self).seen@.len() > 0,
        ensures
            final(self).after(old(self)),
            !final(self).parser.had_error ==> final(self).compiled(old(self), host, r@, old(self).at(), 1)
                && precedence_of(final(self).parser.current.tpe).level() < 1,
            final(self).reached(old(self), operand_reach(old(self).all(), old(self).at(), 1)),
        decreases old(self).measure(), 3int,
    {
        self.parse_precedence(Precedence::Assignment, host)
    }
}

/// The instructions and constants of two operands, then the instructions of
/// the operator between them, are those of the whole.
pub proof fn lemma_emitted_binary<H: Host>(
    host: &H,
    left: Expr,
    operator: Token,
    right: Expr,
    c0: Chunk,
    c1: Chunk,
    c2: Chunk,
    c3: Chunk,
)
    requires
        emitted(host, left, c0, c1),
        emitted(host, right, c1, c2),
        c3.code@ =~= c2.code@ + binary_code(operator.tpe),
        c3.constants == c2.constants,
    ensures
        emitted(
            host,
            Expr::Binary { left: Box::new(left), operator, right: Box::new(right) },
            c0,
            c3,
        ),
{
    let whole = Expr::Binary { left: Box::new(left), operator, right: Box::new(right) };
    let n0 = c0.constants@.len() as int;
    let nl = literals_of(left).len() as int;
    assert forall|k: int| 0 <= k < literals_of(whole).len() implies compiles_literal(
        host,
        #[trigger] literals_of(whole)[k],
        c3.constants@[n0 + k]@,
    ) by {
        if k < nl {
            assert(literals_of(whole)[k] == literals_of(left)[k]);
            assert(c2.constants@[n0 + k] == c1.constants@[n0 + k]);
        } else {
            assert(literals_of(whole)[k] == literals_of(right)[k - nl]);
            assert(n0 + k == c1.constants@.len() + (k - nl));
        }
    }
}

} // verus!
