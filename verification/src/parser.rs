//! The recursive-descent parser: tokens to statements.
use vstd::prelude::*;
use vstd::string::*;
use std::rc::Rc;
use crate::course::{
    Course, Target, after, agree, args_course, assignment_course, block_course, call_course,
    calls_course, class_course, clauses_course, complaint, complaint_of, condition_course,
    declaration_course, else_course, ended_course, expect, expression_course,
    finish_call_course, for_course, function_course, if_course, lemma_args_course,
    lemma_assignment_course, lemma_block_course, lemma_call_course, lemma_calls_course,
    lemma_class_course, lemma_clauses_course, lemma_condition_course, lemma_declaration_course,
    lemma_else_course, lemma_ended_course, lemma_expression_course, lemma_finish_call_course,
    lemma_for_course, lemma_function_course, lemma_if_course, lemma_level_course,
    lemma_methods_course, lemma_more_course, lemma_params_course, lemma_primary_course,
    lemma_program_course, lemma_return_course, lemma_statement_course, lemma_unary_course,
    lemma_var_course, lemma_while_course, level_course, methods_course, more_course, numbering,
    params_course, primary_course, program_course, return_course, settled, stands_at,
    statement_course, superclass_course, token_at, unary_course, var_course, warned, went,
    while_course,
};
use crate::error::{parser_error, texts, Error};
use crate::syntax::{
    args_pieces, binds, class_head, clause_pieces, expr_pieces, fitted, for_head,
    function_head, function_sound, lemma_args_pieces_shared, lemma_params_pieces_shared,
    lemma_spelled_join, lemma_spelled_none, lemma_spelled_one, lemma_spelled_push,
    operator_level, params_pieces, simple_pieces, spelled, stmt_sound, superclass_pieces,
    test_pieces, well_formed, Expr, FunctionDeclaration, LiteralValue, Piece, Source, Stmt,
};
use crate::token::{Token, TokenType};

verus! {

/// The most parameters a function may declare and the most arguments a call
/// may pass.
pub const MAX_ARITY: usize = 255;

/// The kind of the token at `pos`, the end of input where there is none.
pub open spec fn kind_at(tokens: Seq<Token>, pos: int) -> TokenType {
    if 0 <= pos < tokens.len() {
        tokens[pos].tpe
    } else {
        TokenType::EOF
    }
}

/// The expression is what the tokens from `from` up to `to` say: it is
/// written as just these tokens, it stands as the grammar groups it, and
/// its outermost construct binds at least at `level`.
pub open spec fn reads_as(e: Expr, source: Source, from: int, to: int, level: nat) -> bool {
    &&& spelled(expr_pieces(e), source, from, to)
    &&& well_formed(e)
    &&& binds(e) >= level
}

/// An operator between two operands that read as the tokens on its sides
/// gives an expression that reads as all of them.
pub proof fn lemma_reads_binary(
    source: Source,
    a: int,
    b: int,
    c: int,
    left: Expr,
    operator: Token,
    right: Expr,
)
    requires
        0 <= a <= b < c <= source.tokens.len(),
        operator == source.tokens[b],
        4 <= operator_level(operator.tpe),
        reads_as(left, source, a, b, operator_level(operator.tpe)),
        reads_as(right, source, b + 1, c, operator_level(operator.tpe) + 1),
    ensures
        reads_as(
            Expr::Binary { left: Box::new(left), operator, right: Box::new(right) },
            source,
            a,
            c,
            operator_level(operator.tpe),
        ),
{
    lemma_spelled_one(Piece::Kept(operator), source, b);
    lemma_spelled_join(expr_pieces(left), seq![Piece::Kept(operator)], source, a, b, b + 1);
    lemma_spelled_join(
        expr_pieces(left) + seq![Piece::Kept(operator)],
        expr_pieces(right),
        source,
        a,
        b + 1,
        c,
    );
}

/// The same for `or` and `and`.
pub proof fn lemma_reads_logical(
    source: Source,
    a: int,
    b: int,
    c: int,
    left: Expr,
    operator: Token,
    right: Expr,
)
    requires
        0 <= a <= b < c <= source.tokens.len(),
        operator == source.tokens[b],
        operator.tpe == TokenType::Or || operator.tpe == TokenType::And,
        reads_as(left, source, a, b, operator_level(operator.tpe)),
        reads_as(right, source, b + 1, c, operator_level(operator.tpe) + 1),
    ensures
        reads_as(
            Expr::Logical { left: Box::new(left), operator, right: Box::new(right) },
            source,
            a,
            c,
            operator_level(operator.tpe),
        ),
{
    lemma_spelled_one(Piece::Kept(operator), source, b);
    lemma_spelled_join(expr_pieces(left), seq![Piece::Kept(operator)], source, a, b, b + 1);
    lemma_spelled_join(
        expr_pieces(left) + seq![Piece::Kept(operator)],
        expr_pieces(right),
        source,
        a,
        b + 1,
        c,
    );
}

/// Names a place between two tokens. It holds of every place.
pub open spec fn cut(at: int) -> bool {
    true
}

/// Names two places between tokens. It holds of every two.
pub open spec fn cuts(first: int, second: int) -> bool {
    true
}

/// Names the parts of a `for` statement and the place where its body
/// starts. It holds of all of them.
pub open spec fn parts_at(
    initializer: Option<Stmt>,
    condition: Option<Expr>,
    increment: Option<Expr>,
    body: Stmt,
    at: int,
) -> bool {
    true
}

/// Whether a statement can start with a token of this kind.
pub open spec fn starts_statement(tpe: TokenType) -> bool {
    tpe == TokenType::Class || tpe == TokenType::Fun || tpe == TokenType::Var || tpe
        == TokenType::For || tpe == TokenType::If || tpe == TokenType::While || tpe
        == TokenType::Print || tpe == TokenType::Return
}

/// Where recovery stops when it has just passed the token before `pos`:
/// behind a semicolon, before a token that starts a statement, or at the end
/// of input.
pub open spec fn recovery_point(tokens: Seq<Token>, pos: int) -> int
    decreases tokens.len() - pos,
{
    if pos <= 0 || pos >= tokens.len() || kind_at(tokens, pos) == TokenType::EOF {
        pos
    } else if kind_at(tokens, pos - 1) == TokenType::Semicolon {
        pos
    } else if starts_statement(kind_at(tokens, pos)) {
        pos
    } else {
        recovery_point(tokens, pos + 1)
    }
}

/// The loop that a `for` statement without initializer stands for: the body,
/// followed by the increment if there is one, under the condition, which is
/// `true` if there is none.
pub open spec fn is_for_loop(
    r: Stmt,
    condition: Option<Expr>,
    increment: Option<Expr>,
    body: Stmt,
) -> bool {
    &&& r matches Stmt::While { condition: c, body: b }
    &&& match condition {
        Some(given) => c == given,
        None => c matches Expr::Literal { value: LiteralValue::Boolean(true) },
    }
    &&& match increment {
        Some(inc) => {
            &&& *b matches Stmt::Block { statements }
            &&& statements@.len() == 2
            &&& statements@[0] == body
            &&& statements@[1] == Stmt::Expression { expression: inc }
        },
        None => *b == body,
    }
}

/// What a `for` statement stands for: its loop, behind the initializer in a
/// block of their own if there is one.
pub open spec fn is_desugared_for(
    r: Stmt,
    initializer: Option<Stmt>,
    condition: Option<Expr>,
    increment: Option<Expr>,
    body: Stmt,
) -> bool {
    match initializer {
        Some(init) => {
            &&& r matches Stmt::Block { statements }
            &&& statements@.len() == 2
            &&& statements@[0] == init
            &&& is_for_loop(statements@[1], condition, increment, body)
        },
        None => is_for_loop(r, condition, increment, body),
    }
}

/// The statements are what the tokens from `from` up to `to` say, one
/// behind the other.
#[verifier::opaque]
pub open spec fn list_says(statements: Seq<Stmt>, source: Source, from: int, to: int) -> bool
    decreases to - from, 2int, statements.len(),
{
    if statements.len() == 0 {
        from == to
    } else {
        exists|mid: int|
            #[trigger] cut(mid) && from <= mid <= to && list_says(
                statements.drop_last(),
                source,
                from,
                mid,
            ) && says(statements.last(), source, mid, to)
    }
}

/// The methods are what the tokens from `from` up to `to` say, one behind
/// the other.
#[verifier::opaque]
pub open spec fn methods_say(
    methods: Seq<Rc<FunctionDeclaration>>,
    source: Source,
    from: int,
    to: int,
) -> bool
    decreases to - from, 2int, methods.len(),
{
    if methods.len() == 0 {
        from == to
    } else {
        exists|mid: int|
            #[trigger] cut(mid) && from <= mid <= to && methods_say(
                methods.drop_last(),
                source,
                from,
                mid,
            ) && function_says(*methods.last(), source, mid, to)
    }
}

/// The function is what the tokens from `from` up to `to` say: its name,
/// its parameters and the opening brace, then the statements of its body,
/// then the closing brace.
#[verifier::opaque]
pub open spec fn function_says(
    declaration: FunctionDeclaration,
    source: Source,
    from: int,
    to: int,
) -> bool
    decreases to - from, 1int, 0nat,
{
    exists|mid: int|
        #[trigger] cut(mid) && 0 <= from < mid < to <= source.tokens.len() && spelled(
            function_head(declaration),
            source,
            from,
            mid,
        ) && kind_at(source.tokens, to - 1) == TokenType::RightBrace && list_says(
            declaration.body@,
            source,
            mid,
            to - 1,
        )
}

/// The statement is what the tokens from `from` up to `to` say.
///
/// A statement that holds no other is spelled by its tokens. A block is
/// what stands between its braces. An `if` and a `while` statement are their
/// keyword and condition and then the statements that they hold; an `else`
/// belongs to the nearest `if`. A function and a class are their head and
/// what their braces hold. Tokens that start with `for` say the loop that
/// their parts stand for: the initializer, which is a variable declaration
/// or an expression statement if there is one, the two clauses, and then the
/// body.
#[verifier::opaque]
pub open spec fn says(s: Stmt, source: Source, from: int, to: int) -> bool
    decreases to - from, 1int, 0nat,
{
    &&& 0 <= from < to <= source.tokens.len()
    &&& if kind_at(source.tokens, from) == TokenType::For {
        exists|
            initializer: Option<Stmt>,
            condition: Option<Expr>,
            increment: Option<Expr>,
            body: Stmt,
            mid: int,
        |
            #[trigger] parts_at(initializer, condition, increment, body, mid) && from < mid < to
                && is_desugared_for(s, initializer, condition, increment, body) && (
            match initializer {
                Some(i) => i is Var || i is Expression,
                None => true,
            }) && spelled(for_head(initializer, condition, increment), source, from, mid) && says(
                body,
                source,
                mid,
                to,
            )
    } else {
        match s {
            Stmt::Block { statements } => {
                &&& kind_at(source.tokens, from) == TokenType::LeftBrace
                &&& kind_at(source.tokens, to - 1) == TokenType::RightBrace
                &&& from + 1 <= to - 1
                &&& list_says(statements@, source, from + 1, to - 1)
            },
            Stmt::Class { name, superclass, methods } => exists|mid: int|
                #[trigger] cut(mid) && from < mid < to && spelled(
                    class_head(name, superclass),
                    source,
                    from,
                    mid,
                ) && kind_at(source.tokens, to - 1) == TokenType::RightBrace && methods_say(
                    methods@,
                    source,
                    mid,
                    to - 1,
                ),
            Stmt::Function { declaration } => {
                &&& kind_at(source.tokens, from) == TokenType::Fun
                &&& function_says(*declaration, source, from + 1, to)
            },
            Stmt::If { condition, else_branch, then_branch } => exists|mid: int, end: int|
                #[trigger] cuts(mid, end) && from < mid < end <= to && spelled(
                    test_pieces(TokenType::If, condition),
                    source,
                    from,
                    mid,
                ) && says(*then_branch, source, mid, end) && (match *else_branch {
                    Some(other) => end < to && kind_at(source.tokens, end) == TokenType::Else
                        && says(other, source, end + 1, to),
                    None => end == to && kind_at(source.tokens, to) != TokenType::Else,
                }),
            Stmt::While { condition, body } => exists|mid: int|
                #[trigger] cut(mid) && from < mid < to && spelled(
                    test_pieces(TokenType::While, condition),
                    source,
                    from,
                    mid,
                ) && says(*body, source, mid, to),
            Stmt::Null => false,
            _ => spelled(simple_pieces(s), source, from, to),
        }
    }
}

/// The parts of a `for` statement are sound.
pub open spec fn parts_sound(
    initializer: Option<Stmt>,
    condition: Option<Expr>,
    increment: Option<Expr>,
    body: Stmt,
) -> bool {
    &&& match initializer {
        Some(i) => stmt_sound(i),
        None => true,
    }
    &&& match condition {
        Some(c) => well_formed(c),
        None => true,
    }
    &&& match increment {
        Some(i) => well_formed(i),
        None => true,
    }
    &&& stmt_sound(body)
}

/// Builds the `while` loop that a `for` statement stands for.
pub fn desugar_for(
    initializer: Option<Stmt>,
    condition: Option<Expr>,
    increment: Option<Expr>,
    body: Stmt,
) -> (r: Stmt)
    ensures
        is_desugared_for(r, initializer, condition, increment, body),
        parts_sound(initializer, condition, increment, body) ==> stmt_sound(r),
{
    let ghost given = body;
    let mut body = body;
    if let Some(inc) = increment {
        let inc_stmt = Stmt::Expression { expression: inc };
        let mut statements: Vec<Stmt> = Vec::new();
        statements.push(body);
        statements.push(inc_stmt);
        assert(statements@[0] == given && statements@[1] == inc_stmt);
        assert(well_formed(inc) ==> stmt_sound(inc_stmt));
        body = Stmt::Block { statements };
        assert(well_formed(inc) && stmt_sound(given) ==> stmt_sound(body));
    }
    let ghost sound = parts_sound(initializer, condition, increment, given);
    assert(sound ==> stmt_sound(body));
    let condition = match condition {
        Some(c) => c,
        None => Expr::Literal { value: LiteralValue::Boolean(true) },
    };
    body = Stmt::While { condition, body: Box::new(body) };
    assert(sound ==> stmt_sound(body));
    if let Some(init_stmt) = initializer {
        let ghost looped = body;
        let mut statements: Vec<Stmt> = Vec::new();
        statements.push(init_stmt);
        statements.push(body);
        assert(statements@[0] == init_stmt && statements@[1] == looped);
        body = Stmt::Block { statements };
    }
    body
}

/// What an expression can be assigned to as.
pub open spec fn target_of(e: Expr) -> Target {
    match e {
        Expr::Variable { .. } => Target::Variable,
        Expr::Get { .. } => Target::Property,
        _ => Target::Neither,
    }
}

/// A parser over one sequence of tokens.
pub struct Parser<'t> {
    tokens: &'t Vec<Token>,
    current: usize,
    first_id: usize,
    diagnostics: Vec<String>,
}

impl<'t> Parser<'t> {
    /// The tokens that the parser reads.
    pub closed spec fn tokens(&self) -> Seq<Token> {
        self.tokens@
    }

    /// The index of the token at which the parser stands.
    pub closed spec fn position(&self) -> int {
        self.current as int
    }

    /// The diagnostics reported so far, oldest first.
    pub closed spec fn reports(&self) -> Seq<String> {
        self.diagnostics@
    }

    /// The number that stands for the first token.
    pub closed spec fn numbered(&self) -> int {
        self.first_id as int
    }

    /// The tokens with their numbers.
    pub open spec fn source(&self) -> Source {
        Source { tokens: self.tokens(), first: self.numbered() }
    }

    /// The parser stands at a token or behind the last.
    pub closed spec fn wf(&self) -> bool {
        self.current <= self.tokens.len()
    }

    /// The parser reads the tokens that `before` read, stands no earlier
    /// than it, and has kept every diagnostic that it had.
    pub open spec fn follows(&self, before: &Parser) -> bool {
        &&& self.wf()
        &&& self.tokens() == before.tokens()
        &&& self.numbered() == before.numbered()
        &&& before.position() <= self.position()
        &&& forall|i: int|
            before.position() <= i < self.position() ==> #[trigger] kind_at(self.tokens(), i)
                != TokenType::EOF
        &&& before.reports().len() <= self.reports().len()
        &&& self.reports().subrange(0, before.reports().len() as int) =~= before.reports()
    }

    /// `follows`, and something was reported in between.
    pub open spec fn failed_after(&self, before: &Parser) -> bool {
        &&& self.follows(before)
        &&& before.reports().len() < self.reports().len()
    }

    /// `follows`, and a token was consumed in between.
    pub open spec fn advanced_after(&self, before: &Parser) -> bool {
        &&& self.follows(before)
        &&& before.position() < self.position()
    }

    /// Where nothing was reported since `before`, the expression is what
    /// the tokens consumed since then say, and binds at least at `level`.
    pub open spec fn parsed(&self, before: &Parser, e: Expr, level: nat) -> bool {
        self.reports().len() == before.reports().len() ==> reads_as(
            e,
            self.source(),
            before.position(),
            self.position(),
            level,
        )
    }

    /// Where nothing was reported since `before`, the statement is sound
    /// and is what the tokens from `from` up to where the parser stands say.
    pub open spec fn read(&self, before: &Parser, s: Stmt, from: int) -> bool {
        self.reports().len() == before.reports().len() ==> stmt_sound(s) && says(
            s,
            self.source(),
            from,
            self.position(),
        )
    }

    /// The same of a statement that holds no other: it is sound and the
    /// tokens spell it.
    pub open spec fn spelt(&self, before: &Parser, s: Stmt, from: int) -> bool {
        self.reports().len() == before.reports().len() ==> stmt_sound(s) && spelled(
            simple_pieces(s),
            self.source(),
            from,
            self.position(),
        )
    }

    /// Since `before` the parser has taken `course`: it stands where the
    /// course ends, it has stopped if `stopped`, and it has reported what
    /// the course reports.
    pub open spec fn took(&self, before: &Parser, stopped: bool, course: Course) -> bool {
        &&& self.position() == course.pos
        &&& stopped == course.stopped
        &&& texts(self.reports()) =~= texts(before.reports()) + course.reports
    }

    /// The same of an expression, which can be assigned to as the course
    /// says.
    pub open spec fn took_expr(&self, before: &Parser, r: Result<Expr, Error>, course: Course) -> bool {
        &&& self.took(before, r is Err, course)
        &&& r matches Ok(e) ==> target_of(e) == course.target
    }

    /// The parser stands just behind a token of kind `tpe`.
    pub open spec fn behind(&self, tpe: TokenType) -> bool {
        self.position() > 0 && kind_at(self.tokens(), self.position() - 1) == tpe
    }

    /// Whether the parser stands at the end of input.
    pub open spec fn at_end(&self) -> bool {
        kind_at(self.tokens(), self.position()) == TokenType::EOF
    }

    pub fn new(tokens: &'t Vec<Token>) -> (r: Self)
        ensures
            r.wf(),
            r.tokens() == tokens@,
            r.position() == 0,
            r.reports().len() == 0,
    {
        Parser { tokens, current: 0, first_id: 0, diagnostics: Vec::new() }
    }

    /// The diagnostics reported so far.
    pub fn diagnostics(&self) -> (r: &Vec<String>)
        ensures
            r@ == self.reports(),
    {
        &self.diagnostics
    }

    /// A parser for a program that goes on from an earlier one: the
    /// number that stands for its first token is `first_id`.
    pub fn with_first_id(tokens: &'t Vec<Token>, first_id: usize) -> (r: Self)
        ensures
            r.wf(),
            r.tokens() == tokens@,
            r.position() == 0,
            r.reports().len() == 0,
            r.numbered() == first_id,
    {
        Parser { tokens, current: 0, first_id, diagnostics: Vec::new() }
    }

    /// The number that stands for the first token of a program that goes
    /// on from this one: the number behind those of all the tokens here. It
    /// stops at the largest number.
    pub fn next_id(&self) -> (r: usize)
        ensures
            r == (if self.numbered() + self.tokens().len() <= usize::MAX {
                self.numbered() + self.tokens().len()
            } else {
                usize::MAX as int
            }),
    {
        if self.first_id <= usize::MAX - self.tokens.len() {
            self.first_id + self.tokens.len()
        } else {
            usize::MAX
        }
    }

    /// Whether anything was reported.
    pub fn had_error(&self) -> (r: bool)
        ensures
            r == (self.reports().len() > 0),
    {
        self.diagnostics.len() > 0
    }

    /// Parses the whole input. Where a declaration does not parse, that is
    /// reported, `Stmt::Null` stands in its place, and parsing goes on
    /// behind the next statement boundary: the statements always come back,
    /// and `had_error` says whether they are fit to run. Where nothing is
    /// reported the statements are what the tokens say; a `for` loop comes
    /// back as the `while` loop that it stands for. What is reported, and
    /// where the parser comes to stand, is the course over the program.
    #[verifier::rlimit(60)]
    pub fn parse(&mut self) -> (r: Result<Vec<Stmt>, Error>)
        requires
            old(self).wf(),
        ensures
            final(self).follows(old(self)),
            final(self).at_end(),
            r is Ok,
            final(self).reports().len() == old(self).reports().len() ==> forall|i: int|
                0 <= i < r->Ok_0@.len() ==> stmt_sound(#[trigger] r->Ok_0@[i]),
            final(self).reports().len() == old(self).reports().len() ==> list_says(
                r->Ok_0@,
                final(self).source(),
                old(self).position(),
                final(self).position(),
            ),
            final(self).took(
                old(self),
                false,
                program_course(old(self).tokens(), old(self).numbered(), old(self).position()),
            ),
    {
        proof {
            lemma_program_course(self.tokens(), self.numbered(), self.position());
        }
        let mut statements: Vec<Stmt> = Vec::new();
        let ghost tokens = self.source();
        let ghost a = self.current as int;
        let ghost toks = self.tokens();
        proof {
            assert(list_says(statements@, tokens, a, a)) by {
                reveal_with_fuel(list_says, 1);
                reveal_with_fuel(says, 1);
            }
        }
        let ghost first = self.numbered();
        let ghost mut done = Seq::<Seq<char>>::empty();
        while !self.is_at_end()
            invariant
                self.tokens() == toks,
                self.numbered() == first,
                texts(self.reports()) =~= texts(old(self).reports()) + done,
                agree(
                    program_course(toks, first, a),
                    warned(done, program_course(toks, first, self.position())),
                ),
                self.follows(old(self)),
                tokens == self.source(),
                a == old(self).current,
                self.diagnostics.len() == old(self).diagnostics.len() ==> forall|i: int|
                    0 <= i < statements@.len() ==> stmt_sound(#[trigger] statements@[i]),
                self.diagnostics.len() == old(self).diagnostics.len() ==> list_says(
                    statements@,
                    tokens,
                    a,
                    self.current as int,
                ),
            decreases self.tokens.len() - self.current,
        {
            proof {
                lemma_program_course(self.tokens(), self.numbered(), self.position());
            }
            let ghost before = *self;
            let ghost listed = statements@;
            let statement = self.declaration();
            proof {
                lemma_follows_trans(self, &before, old(self));
            }
            proof {
                let read = declaration_course(toks, first, before.position());
                assert(agree(
                    program_course(toks, first, before.position()),
                    after(read, program_course(toks, first, read.pos)),
                ));
                done = done + read.reports;
            }
            statements.push(statement);
            proof {
                if self.diagnostics.len() == old(self).diagnostics.len() {
                    assert(statements@.drop_last() =~= listed);
                    assert(statements@.last() == statement);
                    assert(cut(before.current as int));
                    assert(list_says(statements@, tokens, a, self.current as int)) by {
                        reveal_with_fuel(list_says, 1);
                        reveal_with_fuel(says, 1);
                    }
                }
            }
        }
        proof {
            lemma_program_course(self.tokens(), self.numbered(), self.position());
        }
        Ok(statements)
    }

    /// An expression: what the tokens from here on say, as the grammar
    /// groups them.
    fn expression(&mut self) -> (r: Result<Expr, Error>)
        requires
            old(self).wf(),
        ensures
            final(self).follows(old(self)),
            r is Ok ==> final(self).advanced_after(old(self)),
            r matches Err(e) ==> e is Parse && final(self).failed_after(old(self)),
            r matches Ok(e) ==> final(self).parsed(old(self), e, 1),
            final(self).took_expr(
                old(self),
                r,
                expression_course(old(self).tokens(), old(self).numbered(), old(self).position()),
            ),
        decreases old(self).tokens.len() - old(self).current, 18int,
    {
        proof {
            lemma_expression_course(self.tokens(), self.numbered(), self.position());
        }
        self.assignment()
    }

    /// One declaration. A declaration that does not parse is reported and
    /// gives `Stmt::Null`; the parser then stands at the next statement
    /// boundary.
    #[verifier::rlimit(60)]
    fn declaration(&mut self) -> (r: Stmt)
        requires
            old(self).wf(),
        ensures
            final(self).follows(old(self)),
            !old(self).at_end() ==> final(self).advanced_after(old(self)),
            r is Null ==> final(self).failed_after(old(self)),
            final(self).read(old(self), r, old(self).position()),
            final(self).took(
                old(self),
                false,
                declaration_course(old(self).tokens(), old(self).numbered(), old(self).position()),
            ),
        decreases old(self).tokens.len() - old(self).current, 30int,
    {
        proof {
            lemma_declaration_course(self.tokens(), self.numbered(), self.position());
        }
        let ghost a = self.current as int;
        let statement = if self.matches(TokenType::Var) {
            self.var_declaration()
        } else if self.matches(TokenType::Class) {
            self.class_declaration()
        } else if self.matches(TokenType::Fun) {
            match self.function("function") {
                Ok(declaration) => {
                    let made = Stmt::Function { declaration: Rc::new(declaration) };
                    proof {
                        if self.diagnostics@.len() == old(self).diagnostics@.len() {
                            assert(says(made, self.source(), a, self.current as int)) by {
                                reveal_with_fuel(says, 1);
                                reveal_with_fuel(function_says, 1);
                            }
                        }
                    }
                    Ok(made)
                },
                Err(e) => Err(e),
            }
        } else {
            self.statement()
        };
        match statement {
            Ok(s) => s,
            Err(_) => {
                let ghost before = *self;
                self.synchronize();
                proof {
                    lemma_follows_trans(self, &before, old(self));
                }
                Stmt::Null
            },
        }
    }

    /// A class behind its keyword: its name, its superclass if it names
    /// one, and its methods.
    #[verifier::rlimit(60)]
    fn class_declaration(&mut self) -> (r: Result<Stmt, Error>)
        requires
            old(self).wf(),
            old(self).behind(TokenType::Class),
        ensures
            final(self).follows(old(self)),
            r matches Ok(s) ==> final(self).advanced_after(old(self)) && !(s is Null),
            r matches Err(e) ==> e is Parse && final(self).failed_after(old(self)),
            r matches Ok(s) ==> final(self).read(old(self), s, old(self).position() - 1),
            final(self).took(
                old(self),
                r is Err,
                class_course(old(self).tokens(), old(self).numbered(), old(self).position()),
            ),
        decreases old(self).tokens.len() - old(self).current, 29int,
    {
        proof {
            lemma_class_course(self.tokens(), self.numbered(), self.position());
        }
        let ghost tokens = self.source();
        let ghost a = self.current as int;
        let name = self.consume(TokenType::Identifier, "Expect class name.")?;
        let ghost mut acc = seq![Piece::Kind(TokenType::Class), Piece::Kept(name)];
        proof {
            lemma_spelled_one(Piece::Kind(TokenType::Class), tokens, a - 1);
            lemma_spelled_push(
                seq![Piece::Kind(TokenType::Class)],
                Piece::Kept(name),
                tokens,
                a - 1,
                a,
            );
            assert(acc =~= seq![Piece::Kind(TokenType::Class)] + seq![Piece::Kept(name)]);
        }
        let mut superclass: Option<Expr> = None;
        let ghost named = *self;
        if self.matches(TokenType::Less) {
            let ghost extended = *self;
            let parent = self.consume(TokenType::Identifier, "Expect superclass name.");
            proof {
                lemma_follows_trans(self, &extended, &named);
                lemma_follows_trans(self, &named, old(self));
            }
            let parent = parent?;
            let ghost given = *self;
            let id = self.fresh_id(self.current - 1);
            proof {
                lemma_follows_trans(self, &given, old(self));
                if self.diagnostics@.len() == old(self).diagnostics@.len() {
                    lemma_spelled_push(acc, Piece::Kind(TokenType::Less), tokens, a - 1, a + 1);
                    lemma_spelled_push(
                        acc + seq![Piece::Kind(TokenType::Less)],
                        Piece::Numbered(parent, id),
                        tokens,
                        a - 1,
                        a + 2,
                    );
                }
                acc = acc + seq![Piece::Kind(TokenType::Less)] + seq![Piece::Numbered(parent, id)];
            }
            superclass = Some(Expr::Variable { id, name: parent });
        }
        proof {
            assert(acc =~= seq![Piece::Kind(TokenType::Class), Piece::Kept(name)]
                + superclass_pieces(superclass));
        }
        let ghost headed = *self;
        let opening = self.consume(TokenType::LeftBrace, "Expect '{' before class body.");
        proof {
            lemma_follows_trans(self, &headed, old(self));
        }
        opening?;
        proof {
            if self.diagnostics@.len() == old(self).diagnostics@.len() {
                lemma_spelled_push(
                    acc,
                    Piece::Kind(TokenType::LeftBrace),
                    tokens,
                    a - 1,
                    headed.current as int,
                );
            }
            acc = acc + seq![Piece::Kind(TokenType::LeftBrace)];
            assert(acc =~= class_head(name, superclass));
        }
        let ghost start = self.current as int;
        let ghost toks = self.tokens();
        let ghost first = self.numbered();
        let ghost lead = texts(self.reports()).skip(texts(old(self).reports()).len() as int);
        let ghost mut done = Seq::<Seq<char>>::empty();
        let ghost head = superclass_course(toks, first, a + 1);
        proof {
            assert(texts(self.reports()) =~= texts(old(self).reports()) + lead);
        }
        let mut methods: Vec<Rc<FunctionDeclaration>> = Vec::new();
        proof {
            assert(methods_say(methods@, tokens, start, start)) by {
                reveal_with_fuel(methods_say, 1);
                reveal_with_fuel(function_says, 1);
            }
        }
        while !self.check(TokenType::RightBrace) && !self.is_at_end()
            invariant
                self.tokens() == toks,
                self.numbered() == first,
                texts(self.reports()) =~= texts(old(self).reports()) + (lead + done),
                stands_at(toks, a, TokenType::Identifier),
                head == superclass_course(toks, first, a + 1),
                !head.stopped,
                stands_at(toks, head.pos, TokenType::LeftBrace),
                start == head.pos + 1,
                lead =~= head.reports,
                agree(
                    methods_course(toks, first, start),
                    warned(done, methods_course(toks, first, self.position())),
                ),
                self.advanced_after(old(self)),
                tokens == self.source(),
                a == old(self).current,
                a > 0,
                a < start <= self.current,
                self.diagnostics@.len() == old(self).diagnostics@.len() ==> forall|i: int|
                    0 <= i < methods@.len() ==> function_sound(*#[trigger] methods@[i]),
                self.diagnostics@.len() == old(self).diagnostics@.len() ==> spelled(
                    class_head(name, superclass),
                    tokens,
                    a - 1,
                    start,
                ),
                self.diagnostics@.len() == old(self).diagnostics@.len() ==> methods_say(
                    methods@,
                    tokens,
                    start,
                    self.current as int,
                ),
            decreases self.tokens.len() - self.current,
        {
            proof {
                lemma_methods_course(self.tokens(), self.numbered(), self.position());
                lemma_class_course(toks, first, a);
            }
            let ghost before = *self;
            let ghost listed = methods@;
            let method = self.function("method");
            proof {
                lemma_follows_trans(self, &before, old(self));
            }
            proof {
                let read = function_course(toks, first, before.position(), "method"@);
                let rest = methods_course(toks, first, before.position());
                if method is Err {
                    assert(agree(rest, read));
                    let whole = methods_course(toks, first, start);
                    assert(agree(whole, warned(done, read)));
                    assert(agree(class_course(toks, first, a), after(head, whole)));
                    assert(texts(self.reports()) =~= texts(old(self).reports()) + (lead + (done
                        + read.reports)));
                } else {
                    assert(agree(rest, after(read, methods_course(toks, first, read.pos))));
                }
                done = done + read.reports;
            }
            let method = method?;
            methods.push(Rc::new(method));
            proof {
                if self.diagnostics@.len() == old(self).diagnostics@.len() {
                    assert(methods@.drop_last() =~= listed);
                    assert(*methods@.last() == method);
                    assert(cut(before.current as int));
                    assert(methods_say(methods@, tokens, start, self.current as int)) by {
                        reveal_with_fuel(methods_say, 1);
                        reveal_with_fuel(function_says, 1);
                    }
                }
            }
        }
        proof {
            lemma_methods_course(self.tokens(), self.numbered(), self.position());
        }
        let ghost before = *self;
        let closing = self.consume(TokenType::RightBrace, "Expect '}' after class body.");
        proof {
            lemma_follows_trans(self, &before, old(self));
        }
        closing?;
        proof {
            if self.diagnostics@.len() == old(self).diagnostics@.len() {
                assert(cut(start));
                assert(kind_at(tokens.tokens, a - 1) != TokenType::For);
                assert(says(
                    Stmt::Class { name, superclass, methods },
                    tokens,
                    a - 1,
                    self.current as int,
                )) by {
                    reveal_with_fuel(says, 1);
                    reveal_with_fuel(methods_say, 1);
                }
            }
        }
        Ok(Stmt::Class { name, superclass, methods })
    }

    /// One statement.
    fn statement(&mut self) -> (r: Result<Stmt, Error>)
        requires
            old(self).wf(),
        ensures
            final(self).follows(old(self)),
            r matches Ok(s) ==> final(self).advanced_after(old(self)) && !(s is Null),
            r matches Err(e) ==> e is Parse && final(self).failed_after(old(self)),
            r matches Ok(s) ==> final(self).read(old(self), s, old(self).position()),
            final(self).took(
                old(self),
                r is Err,
                statement_course(old(self).tokens(), old(self).numbered(), old(self).position()),
            ),
        decreases old(self).tokens.len() - old(self).current, 26int,
    {
        proof {
            lemma_statement_course(self.tokens(), self.numbered(), self.position());
        }
        let ghost a = self.current as int;
        if self.matches(TokenType::For) {
            self.for_statement()
        } else if self.matches(TokenType::If) {
            self.if_statement()
        } else if self.matches(TokenType::Print) {
            self.print_statement()
        } else if self.matches(TokenType::Return) {
            let keyword: Token = self.previous();
            self.return_statement(keyword)
        } else if self.matches(TokenType::While) {
            self.while_statement()
        } else if self.matches(TokenType::LeftBrace) {
            match self.block() {
                Ok(statements) => {
                    let made = Stmt::Block { statements };
                    proof {
                        if self.diagnostics@.len() == old(self).diagnostics@.len() {
                            assert(says(made, self.source(), a, self.current as int)) by {
                                reveal_with_fuel(says, 1);
                                reveal_with_fuel(list_says, 1);
                            }
                        }
                    }
                    Ok(made)
                },
                Err(e) => Err(e),
            }
        } else {
            let stated = self.expression_statement();
            proof {
                if stated is Ok && self.diagnostics@.len() == old(self).diagnostics@.len() {
                    assert(says(stated->Ok_0, self.source(), a, self.current as int)) by {
                        reveal_with_fuel(says, 1);
                    }
                }
            }
            stated
        }
    }

    /// A `for` statement behind its keyword. It comes back as the `while`
    /// loop that it stands for.
    #[verifier::rlimit(60)]
    fn for_statement(&mut self) -> (r: Result<Stmt, Error>)
        requires
            old(self).wf(),
            old(self).behind(TokenType::For),
        ensures
            final(self).follows(old(self)),
            r matches Ok(s) ==> !(s is Null),
            r matches Err(e) ==> e is Parse && final(self).failed_after(old(self)),
            r matches Ok(s) ==> final(self).read(old(self), s, old(self).position() - 1),
            final(self).took(
                old(self),
                r is Err,
                for_course(old(self).tokens(), old(self).numbered(), old(self).position()),
            ),
        decreases old(self).tokens.len() - old(self).current, 25int,
    {
        proof {
            lemma_for_course(self.tokens(), self.numbered(), self.position());
        }
        let ghost tokens = self.source();
        let ghost a = self.current as int;
        self.consume(TokenType::LeftParen, "Expect '(' after 'for'.")?;
        let ghost mut acc = seq![Piece::Kind(TokenType::For), Piece::Kind(TokenType::LeftParen)];
        proof {
            lemma_spelled_one(Piece::Kind(TokenType::For), tokens, a - 1);
            lemma_spelled_push(
                seq![Piece::Kind(TokenType::For)],
                Piece::Kind(TokenType::LeftParen),
                tokens,
                a - 1,
                a,
            );
            assert(acc =~= seq![Piece::Kind(TokenType::For)] + seq![
                Piece::Kind(TokenType::LeftParen),
            ]);
        }
        let ghost opened = *self;
        let initializer = if self.matches(TokenType::Semicolon) {
            proof {
                lemma_spelled_push(acc, Piece::Kind(TokenType::Semicolon), tokens, a - 1, a + 1);
                acc = acc + seq![Piece::Kind(TokenType::Semicolon)];
            }
            None
        } else if self.matches(TokenType::Var) {
            let declared = self.var_declaration();
            proof {
                lemma_follows_trans(self, &opened, old(self));
            }
            let declared = declared?;
            proof {
                if self.diagnostics@.len() == old(self).diagnostics@.len() {
                    lemma_spelled_join(
                        acc,
                        simple_pieces(declared),
                        tokens,
                        a - 1,
                        a + 1,
                        self.current as int,
                    );
                }
                acc = acc + simple_pieces(declared);
            }
            Some(declared)
        } else {
            let stated = self.expression_statement();
            proof {
                lemma_follows_trans(self, &opened, old(self));
            }
            let stated = stated?;
            proof {
                if self.diagnostics@.len() == old(self).diagnostics@.len() {
                    lemma_spelled_join(
                        acc,
                        simple_pieces(stated),
                        tokens,
                        a - 1,
                        a + 1,
                        self.current as int,
                    );
                }
                acc = acc + simple_pieces(stated);
            }
            Some(stated)
        };
        proof {
            lemma_follows_trans(self, &opened, old(self));
        }
        let ghost initialized = *self;
        let clauses = self.for_clauses();
        proof {
            lemma_follows_trans(self, &initialized, old(self));
        }
        let (condition, increment) = clauses?;
        proof {
            if self.diagnostics@.len() == old(self).diagnostics@.len() {
                lemma_spelled_join(
                    acc,
                    clause_pieces(condition, increment),
                    tokens,
                    a - 1,
                    initialized.current as int,
                    self.current as int,
                );
            }
            acc = acc + clause_pieces(condition, increment);
            assert(acc =~= for_head(initializer, condition, increment));
        }
        let ghost closed = *self;
        let body = self.statement();
        proof {
            lemma_follows_trans(self, &closed, old(self));
        }
        let body = body?;
        let ghost parts = (initializer, condition, increment, body);
        let r = desugar_for(initializer, condition, increment, body);
        proof {
            if self.diagnostics@.len() == old(self).diagnostics@.len() {
                assert(parts_at(parts.0, parts.1, parts.2, parts.3, closed.current as int));
                assert(says(r, tokens, a - 1, self.current as int)) by {
                    reveal_with_fuel(says, 1);
                }
            }
        }
        Ok(r)
    }

    /// The clauses of a `for` statement behind its initializer: the
    /// condition if there is one, a semicolon, the increment if there is one,
    /// and the closing parenthesis.
    #[verifier::rlimit(60)]
    fn for_clauses(&mut self) -> (r: Result<(Option<Expr>, Option<Expr>), Error>)
        requires
            old(self).wf(),
        ensures
            final(self).follows(old(self)),
            r is Ok ==> final(self).advanced_after(old(self)),
            r matches Err(e) ==> e is Parse && final(self).failed_after(old(self)),
            r matches Ok(clauses) ==> (final(self).reports().len() == old(self).reports().len()
                ==> {
                &&& match clauses.0 {
                    Some(c) => well_formed(c),
                    None => true,
                }
                &&& match clauses.1 {
                    Some(i) => well_formed(i),
                    None => true,
                }
                &&& spelled(
                    clause_pieces(clauses.0, clauses.1),
                    final(self).source(),
                    old(self).position(),
                    final(self).position(),
                )
            }),
            final(self).took(
                old(self),
                r is Err,
                clauses_course(old(self).tokens(), old(self).numbered(), old(self).position()),
            ),
        decreases old(self).tokens.len() - old(self).current, 24int,
    {
        proof {
            lemma_clauses_course(self.tokens(), self.numbered(), self.position());
        }
        let ghost tokens = self.source();
        let ghost a = self.current as int;
        let ghost mut acc = Seq::<Piece>::empty();
        proof {
            lemma_spelled_none(tokens, a);
        }
        let condition = if !self.check(TokenType::Semicolon) {
            let tested = self.expression()?;
            proof {
                if self.diagnostics@.len() == old(self).diagnostics@.len() {
                    lemma_spelled_join(acc, expr_pieces(tested), tokens, a, a, self.current as int);
                }
                acc = acc + expr_pieces(tested);
            }
            Some(tested)
        } else {
            None
        };
        let ghost tested = *self;
        let semicolon = self.consume(TokenType::Semicolon, "Expect ';' after loop condition.");
        proof {
            lemma_follows_trans(self, &tested, old(self));
        }
        semicolon?;
        proof {
            if self.diagnostics@.len() == old(self).diagnostics@.len() {
                lemma_spelled_push(
                    acc,
                    Piece::Kind(TokenType::Semicolon),
                    tokens,
                    a,
                    tested.current as int,
                );
            }
            acc = acc + seq![Piece::Kind(TokenType::Semicolon)];
        }
        let ghost separated = *self;
        let increment = if !self.check(TokenType::RightParen) {
            let stepped = self.expression();
            proof {
                lemma_follows_trans(self, &separated, old(self));
            }
            let stepped = stepped?;
            proof {
                if self.diagnostics@.len() == old(self).diagnostics@.len() {
                    lemma_spelled_join(
                        acc,
                        expr_pieces(stepped),
                        tokens,
                        a,
                        separated.current as int,
                        self.current as int,
                    );
                }
                acc = acc + expr_pieces(stepped);
            }
            Some(stepped)
        } else {
            None
        };
        let ghost stepped = *self;
        let closing = self.consume(TokenType::RightParen, "Expect ')' after for clauses.");
        proof {
            lemma_follows_trans(self, &stepped, old(self));
        }
        closing?;
        proof {
            if self.diagnostics@.len() == old(self).diagnostics@.len() {
                lemma_spelled_push(
                    acc,
                    Piece::Kind(TokenType::RightParen),
                    tokens,
                    a,
                    stepped.current as int,
                );
            }
            acc = acc + seq![Piece::Kind(TokenType::RightParen)];
            assert(acc =~= clause_pieces(condition, increment));
        }
        Ok((condition, increment))
    }

    /// An expression in parentheses, as it follows `if` and `while`.
    fn condition(&mut self, before_it: &str, after_it: &str) -> (r: Result<Expr, Error>)
        requires
            old(self).wf(),
        ensures
            final(self).follows(old(self)),
            r is Ok ==> final(self).advanced_after(old(self)),
            r matches Err(e) ==> e is Parse && final(self).failed_after(old(self)),
            r matches Ok(e) ==> (final(self).reports().len() == old(self).reports().len()
                ==> well_formed(e)),
            r matches Ok(e) ==> (final(self).reports().len() == old(self).reports().len()
                ==> spelled(
                seq![Piece::Kind(TokenType::LeftParen)] + expr_pieces(e) + seq![
                    Piece::Kind(TokenType::RightParen),
                ],
                final(self).source(),
                old(self).position(),
                final(self).position(),
            )),
            final(self).took(
                old(self),
                r is Err,
                condition_course(old(self).tokens(), old(self).numbered(), old(self).position(), before_it@, after_it@),
            ),
        decreases old(self).tokens.len() - old(self).current, 20int,
    {
        proof {
            lemma_condition_course(self.tokens(), self.numbered(), self.position(), before_it@, after_it@);
        }
        let ghost tokens = self.source();
        let ghost a = self.current as int;
        self.consume(TokenType::LeftParen, before_it)?;
        let ghost opened = *self;
        let condition = self.expression();
        proof {
            lemma_follows_trans(self, &opened, old(self));
        }
        let condition = condition?;
        let ghost tested = *self;
        let closing = self.consume(TokenType::RightParen, after_it);
        proof {
            lemma_follows_trans(self, &tested, old(self));
        }
        closing?;
        proof {
            if self.diagnostics@.len() == old(self).diagnostics@.len() {
                let open = seq![Piece::Kind(TokenType::LeftParen)];
                lemma_spelled_one(Piece::Kind(TokenType::LeftParen), tokens, a);
                lemma_spelled_join(open, expr_pieces(condition), tokens, a, a + 1, tested.current as int);
                lemma_spelled_push(
                    open + expr_pieces(condition),
                    Piece::Kind(TokenType::RightParen),
                    tokens,
                    a,
                    tested.current as int,
                );
            }
        }
        Ok(condition)
    }

    /// The `else` branch of an `if` statement, if one follows.
    fn else_branch(&mut self) -> (r: Result<Option<Stmt>, Error>)
        requires
            old(self).wf(),
        ensures
            final(self).follows(old(self)),
            r matches Err(e) ==> e is Parse && final(self).failed_after(old(self)),
            r matches Ok(Some(s)) ==> {
                &&& !(s is Null)
                &&& kind_at(old(self).tokens(), old(self).position()) == TokenType::Else
                &&& final(self).read(old(self), s, old(self).position() + 1)
            },
            r matches Ok(None) ==> {
                &&& kind_at(old(self).tokens(), old(self).position()) != TokenType::Else
                &&& final(self).position() == old(self).position()
                &&& final(self).reports() == old(self).reports()
            },
            final(self).took(
                old(self),
                r is Err,
                else_course(old(self).tokens(), old(self).numbered(), old(self).position()),
            ),
        decreases old(self).tokens.len() - old(self).current, 27int,
    {
        proof {
            lemma_else_course(self.tokens(), self.numbered(), self.position());
        }
        if self.matches(TokenType::Else) {
            let ghost turned = *self;
            let other = self.statement();
            proof {
                lemma_follows_trans(self, &turned, old(self));
            }
            let other = other?;
            Ok(Some(other))
        } else {
            Ok(None)
        }
    }

    /// An `if` statement behind its keyword.
    #[verifier::rlimit(60)]
    fn if_statement(&mut self) -> (r: Result<Stmt, Error>)
        requires
            old(self).wf(),
            old(self).behind(TokenType::If),
        ensures
            final(self).follows(old(self)),
            r matches Ok(s) ==> final(self).advanced_after(old(self)) && !(s is Null),
            r matches Err(e) ==> e is Parse && final(self).failed_after(old(self)),
            r matches Ok(s) ==> final(self).read(old(self), s, old(self).position() - 1),
            final(self).took(
                old(self),
                r is Err,
                if_course(old(self).tokens(), old(self).numbered(), old(self).position()),
            ),
        decreases old(self).tokens.len() - old(self).current, 28int,
    {
        proof {
            lemma_if_course(self.tokens(), self.numbered(), self.position());
        }
        let ghost tokens = self.source();
        let ghost a = self.current as int;
        let condition = self.condition("Expect '(' after 'if'.", "Expect ')' after if condition.")?;
        let ghost word = seq![Piece::Kind(TokenType::If)];
        let ghost test = seq![Piece::Kind(TokenType::LeftParen)] + expr_pieces(condition) + seq![
            Piece::Kind(TokenType::RightParen),
        ];
        let ghost closed = *self;
        let then_branch = self.statement();
        proof {
            lemma_follows_trans(self, &closed, old(self));
        }
        let then_branch = Box::new(then_branch?);
        let ghost taken = *self;
        let branch = self.else_branch();
        proof {
            lemma_follows_trans(self, &taken, old(self));
        }
        let else_branch = Box::new(branch?);
        proof {
            if self.diagnostics@.len() == old(self).diagnostics@.len() {
                lemma_spelled_one(Piece::Kind(TokenType::If), tokens, a - 1);
                lemma_spelled_join(word, test, tokens, a - 1, a, closed.current as int);
                assert(word + test =~= test_pieces(TokenType::If, condition));
                assert(cuts(closed.current as int, taken.current as int));
                assert(says(
                    Stmt::If { condition, else_branch, then_branch },
                    tokens,
                    a - 1,
                    self.current as int,
                )) by {
                    reveal_with_fuel(says, 1);
                }
            }
        }
        Ok(Stmt::If { condition, else_branch, then_branch })
    }

    /// A `print` statement behind its keyword.
    fn print_statement(&mut self) -> (r: Result<Stmt, Error>)
        requires
            old(self).wf(),
            old(self).behind(TokenType::Print),
        ensures
            final(self).follows(old(self)),
            r matches Ok(s) ==> final(self).advanced_after(old(self)) && !(s is Null),
            r matches Err(e) ==> e is Parse && final(self).failed_after(old(self)),
            r matches Ok(s) ==> final(self).read(old(self), s, old(self).position() - 1),
            final(self).took(
                old(self),
                r is Err,
                ended_course(old(self).tokens(), old(self).numbered(), old(self).position(), "Expect ';' after value."@),
            ),
        decreases old(self).tokens.len() - old(self).current, 23int,
    {
        proof {
            lemma_ended_course(self.tokens(), self.numbered(), self.position(), "Expect ';' after value."@);
        }
        let ghost tokens = self.source();
        let ghost a = self.current as int;
        let value = self.expression()?;
        let ghost before = *self;
        let semicolon = self.consume(TokenType::Semicolon, "Expect ';' after value.");
        proof {
            lemma_follows_trans(self, &before, old(self));
        }
        semicolon?;
        proof {
            if self.diagnostics@.len() == old(self).diagnostics@.len() {
                let word = seq![Piece::Kind(TokenType::Print)];
                lemma_spelled_one(Piece::Kind(TokenType::Print), tokens, a - 1);
                lemma_spelled_join(word, expr_pieces(value), tokens, a - 1, a, before.current as int);
                lemma_spelled_push(
                    word + expr_pieces(value),
                    Piece::Kind(TokenType::Semicolon),
                    tokens,
                    a - 1,
                    before.current as int,
                );
                assert(says(Stmt::Print { expression: value }, tokens, a - 1, self.current as int))
                    by {
                    reveal_with_fuel(says, 1);
                }
            }
        }
        Ok(Stmt::Print { expression: value })
    }

    /// A `return` statement behind its keyword.
    #[verifier::rlimit(60)]
    fn return_statement(&mut self, keyword: Token) -> (r: Result<Stmt, Error>)
        requires
            old(self).wf(),
            old(self).position() > 0,
            keyword == old(self).tokens()[old(self).position() - 1],
            keyword.tpe == TokenType::Return,
        ensures
            final(self).follows(old(self)),
            r matches Ok(s) ==> !(s is Null),
            r matches Err(e) ==> e is Parse && final(self).failed_after(old(self)),
            r matches Ok(s) ==> final(self).read(old(self), s, old(self).position() - 1),
            final(self).took(
                old(self),
                r is Err,
                return_course(old(self).tokens(), old(self).numbered(), old(self).position()),
            ),
        decreases old(self).tokens.len() - old(self).current, 22int,
    {
        proof {
            lemma_return_course(self.tokens(), self.numbered(), self.position());
            lemma_ended_course(self.tokens(), self.numbered(), self.position(), "Expect ';' after return value."@);
        }
        let ghost tokens = self.source();
        let ghost a = self.current as int;
        let ghost mut acc = seq![Piece::Kept(keyword)];
        proof {
            lemma_spelled_one(Piece::Kept(keyword), tokens, a - 1);
        }
        let value = if !self.check(TokenType::Semicolon) {
            let given = self.expression()?;
            proof {
                if self.diagnostics@.len() == old(self).diagnostics@.len() {
                    lemma_spelled_join(acc, expr_pieces(given), tokens, a - 1, a, self.current as int);
                }
                acc = acc + expr_pieces(given);
            }
            Some(given)
        } else {
            proof {
                assert(acc =~= seq![Piece::Kept(keyword)]);
            }
            None
        };
        let ghost before = *self;
        let semicolon = self.consume(TokenType::Semicolon, "Expect ';' after return value.");
        proof {
            lemma_follows_trans(self, &before, old(self));
        }
        semicolon?;
        proof {
            if self.diagnostics@.len() == old(self).diagnostics@.len() {
                lemma_spelled_push(
                    acc,
                    Piece::Kind(TokenType::Semicolon),
                    tokens,
                    a - 1,
                    before.current as int,
                );
                assert(simple_pieces(Stmt::Return { keyword, value }) =~= acc + seq![
                    Piece::Kind(TokenType::Semicolon),
                ]);
                assert(says(Stmt::Return { keyword, value }, tokens, a - 1, self.current as int))
                    by {
                    reveal_with_fuel(says, 1);
                }
            }
        }
        Ok(Stmt::Return { keyword, value })
    }

    /// A variable declaration behind its keyword.
    #[verifier::rlimit(60)]
    fn var_declaration(&mut self) -> (r: Result<Stmt, Error>)
        requires
            old(self).wf(),
            old(self).behind(TokenType::Var),
        ensures
            final(self).follows(old(self)),
            r matches Ok(s) ==> final(self).advanced_after(old(self)) && !(s is Null),
            r matches Err(e) ==> e is Parse && final(self).failed_after(old(self)),
            r matches Ok(s) ==> final(self).read(old(self), s, old(self).position() - 1),
            r matches Ok(s) ==> s is Var && final(self).spelt(old(self), s, old(self).position() - 1),
            final(self).took(
                old(self),
                r is Err,
                var_course(old(self).tokens(), old(self).numbered(), old(self).position()),
            ),
        decreases old(self).tokens.len() - old(self).current, 27int,
    {
        proof {
            lemma_var_course(self.tokens(), self.numbered(), self.position());
            lemma_ended_course(self.tokens(), self.numbered(), self.position() + 2, "Expect ';' after variable declaration."@);
        }
        let ghost tokens = self.source();
        let ghost a = self.current as int;
        let name = self.consume(TokenType::Identifier, "Expect variable name.")?;
        let ghost mut acc = seq![Piece::Kind(TokenType::Var), Piece::Kept(name)];
        proof {
            lemma_spelled_one(Piece::Kind(TokenType::Var), tokens, a - 1);
            lemma_spelled_push(seq![Piece::Kind(TokenType::Var)], Piece::Kept(name), tokens, a - 1, a);
            assert(acc =~= seq![Piece::Kind(TokenType::Var)] + seq![Piece::Kept(name)]);
        }
        let ghost named = *self;
        let initializer = if self.matches(TokenType::Equal) {
            let given = self.expression();
            proof {
                lemma_follows_trans(self, &named, old(self));
            }
            let given = given?;
            proof {
                if self.diagnostics@.len() == old(self).diagnostics@.len() {
                    lemma_spelled_push(acc, Piece::Kind(TokenType::Equal), tokens, a - 1, a + 1);
                    lemma_spelled_join(
                        acc + seq![Piece::Kind(TokenType::Equal)],
                        expr_pieces(given),
                        tokens,
                        a - 1,
                        a + 2,
                        self.current as int,
                    );
                }
                acc = acc + seq![Piece::Kind(TokenType::Equal)] + expr_pieces(given);
            }
            Some(given)
        } else {
            None
        };
        let ghost before = *self;
        let semicolon = self.consume(
            TokenType::Semicolon,
            "Expect ';' after variable declaration.",
        );
        proof {
            lemma_follows_trans(self, &before, old(self));
        }
        semicolon?;
        proof {
            if self.diagnostics@.len() == old(self).diagnostics@.len() {
                lemma_spelled_push(
                    acc,
                    Piece::Kind(TokenType::Semicolon),
                    tokens,
                    a - 1,
                    before.current as int,
                );
                assert(simple_pieces(Stmt::Var { name, initializer }) =~= acc + seq![
                    Piece::Kind(TokenType::Semicolon),
                ]);
                assert(says(Stmt::Var { name, initializer }, tokens, a - 1, self.current as int))
                    by {
                    reveal_with_fuel(says, 1);
                }
            }
        }
        Ok(Stmt::Var { name, initializer })
    }

    /// A `while` statement behind its keyword.
    fn while_statement(&mut self) -> (r: Result<Stmt, Error>)
        requires
            old(self).wf(),
            old(self).behind(TokenType::While),
        ensures
            final(self).follows(old(self)),
            r matches Ok(s) ==> final(self).advanced_after(old(self)) && !(s is Null),
            r matches Err(e) ==> e is Parse && final(self).failed_after(old(self)),
            r matches Ok(s) ==> final(self).read(old(self), s, old(self).position() - 1),
            final(self).took(
                old(self),
                r is Err,
                while_course(old(self).tokens(), old(self).numbered(), old(self).position()),
            ),
        decreases old(self).tokens.len() - old(self).current, 21int,
    {
        proof {
            lemma_while_course(self.tokens(), self.numbered(), self.position());
        }
        let ghost tokens = self.source();
        let ghost a = self.current as int;
        let condition = self.condition("Expect '(' after 'while'.", "Expect ')' after condition.")?;
        let ghost word = seq![Piece::Kind(TokenType::While)];
        let ghost test = seq![Piece::Kind(TokenType::LeftParen)] + expr_pieces(condition) + seq![
            Piece::Kind(TokenType::RightParen),
        ];
        let ghost closed = *self;
        let body = self.statement();
        proof {
            lemma_follows_trans(self, &closed, old(self));
        }
        let body = Box::new(body?);
        proof {
            if self.diagnostics@.len() == old(self).diagnostics@.len() {
                lemma_spelled_one(Piece::Kind(TokenType::While), tokens, a - 1);
                lemma_spelled_join(word, test, tokens, a - 1, a, closed.current as int);
                assert(word + test =~= test_pieces(TokenType::While, condition));
                assert(cut(closed.current as int));
                assert(says(Stmt::While { condition, body }, tokens, a - 1, self.current as int)) by {
                    reveal_with_fuel(says, 1);
                }
            }
        }
        Ok(Stmt::While { condition, body })
    }

    /// An expression as a statement.
    fn expression_statement(&mut self) -> (r: Result<Stmt, Error>)
        requires
            old(self).wf(),
        ensures
            final(self).follows(old(self)),
            r matches Ok(s) ==> final(self).advanced_after(old(self)) && !(s is Null),
            r matches Err(e) ==> e is Parse && final(self).failed_after(old(self)),
            r matches Ok(s) ==> s is Expression && final(self).spelt(old(self), s, old(self).position()),
            final(self).took(
                old(self),
                r is Err,
                ended_course(old(self).tokens(), old(self).numbered(), old(self).position(), "Expect ';' after expression."@),
            ),
        decreases old(self).tokens.len() - old(self).current, 19int,
    {
        proof {
            lemma_ended_course(self.tokens(), self.numbered(), self.position(), "Expect ';' after expression."@);
        }
        let ghost tokens = self.source();
        let ghost a = self.current as int;
        let expr = self.expression()?;
        let ghost before = *self;
        let semicolon = self.consume(TokenType::Semicolon, "Expect ';' after expression.");
        proof {
            lemma_follows_trans(self, &before, old(self));
        }
        semicolon?;
        proof {
            if self.diagnostics@.len() == old(self).diagnostics@.len() {
                lemma_spelled_push(
                    expr_pieces(expr),
                    Piece::Kind(TokenType::Semicolon),
                    tokens,
                    a,
                    before.current as int,
                );
            }
        }
        Ok(Stmt::Expression { expression: expr })
    }

    /// A function or a method from its name on. `kind` words the
    /// diagnostics. More than 255 parameters are reported, and parsing goes
    /// on.
    #[verifier::rlimit(60)]
    fn function(&mut self, kind: &str) -> (r: Result<FunctionDeclaration, Error>)
        requires
            old(self).wf(),
        ensures
            final(self).follows(old(self)),
            r is Ok ==> final(self).advanced_after(old(self)),
            r matches Err(e) ==> e is Parse && final(self).failed_after(old(self)),
            r matches Ok(d) ==> (final(self).reports().len() == old(self).reports().len()
                ==> function_sound(d)),
            r matches Ok(d) ==> (final(self).reports().len() == old(self).reports().len()
                ==> function_says(
                d,
                final(self).source(),
                old(self).position(),
                final(self).position(),
            )),
            final(self).took(
                old(self),
                r is Err,
                function_course(old(self).tokens(), old(self).numbered(), old(self).position(), kind@),
            ),
        decreases old(self).tokens.len() - old(self).current, 28int,
    {
        proof {
            lemma_function_course(self.tokens(), self.numbered(), self.position(), kind@);
        }
        let ghost tokens = self.source();
        let ghost a = self.current as int;
        let expect_name = crate::text::concat3("Expect ", kind, " name.");
        let name = self.consume(TokenType::Identifier, expect_name.as_str())?;
        let ghost named = *self;
        let expect_paren = crate::text::concat3("Expect '(' after ", kind, " name.");
        let opening = self.consume(TokenType::LeftParen, expect_paren.as_str());
        proof {
            lemma_follows_trans(self, &named, old(self));
        }
        opening?;
        let ghost front = seq![Piece::Kept(name), Piece::Kind(TokenType::LeftParen)];
        proof {
            lemma_spelled_one(Piece::Kept(name), tokens, a);
            lemma_spelled_push(
                seq![Piece::Kept(name)],
                Piece::Kind(TokenType::LeftParen),
                tokens,
                a,
                a + 1,
            );
            assert(front =~= seq![Piece::Kept(name)] + seq![Piece::Kind(TokenType::LeftParen)]);
        }
        let mut params: Vec<Token> = Vec::new();
        let ghost toks = self.tokens();
        let ghost first = self.numbered();
        let ghost mut done = Seq::<Seq<char>>::empty();
        if !self.check(TokenType::RightParen) {
            loop
                invariant_except_break
                    agree(
                        params_course(toks, a + 2, 0),
                        warned(done, params_course(toks, self.position(), params@.len())),
                    ),
                    self.diagnostics@.len() == old(self).diagnostics@.len() ==> spelled(
                        front + (if params@.len() == 0 {
                            Seq::<Piece>::empty()
                        } else {
                            params_pieces(params@, params@.len()) + seq![
                                Piece::Kind(TokenType::Comma),
                            ]
                        }),
                        tokens,
                        a,
                        self.current as int,
                    ),
                invariant
                    self.advanced_after(old(self)),
                    self.tokens() == toks,
                    self.numbered() == first,
                    !stands_at(toks, a + 2, TokenType::RightParen),
                    stands_at(toks, a, TokenType::Identifier),
                    stands_at(toks, a + 1, TokenType::LeftParen),
                    texts(self.reports()) =~= texts(old(self).reports()) + done,
                    tokens == self.source(),
                    a == old(self).current,
                    self.diagnostics@.len() == old(self).diagnostics@.len() ==> params@.len()
                        <= MAX_ARITY && forall|i: int|
                        0 <= i < params@.len() ==> (#[trigger] params@[i]).tpe
                            == TokenType::Identifier,
                ensures
                    agree(
                        params_course(toks, a + 2, 0),
                        warned(done, went(self.position(), Target::Neither)),
                    ),
                    self.diagnostics@.len() == old(self).diagnostics@.len() ==> spelled(
                        front + params_pieces(params@, params@.len()),
                        tokens,
                        a,
                        self.current as int,
                    ),
                decreases self.tokens.len() - self.current,
            {
                proof {
                    lemma_params_course(self.tokens(), self.position(), params@.len());
                    lemma_function_course(toks, first, a, kind@);
                }
                let ghost before = *self;
                let ghost listed = params@;
                if params.len() >= MAX_ARITY {
                    // Reported, and parsing goes on.
                    let token = self.peek();
                    self.error(&token, "Cannot have more than 255 parameters.");
                }
                let ghost alerted = *self;
                let param = self.consume(TokenType::Identifier, "Expect parameter name.");
                proof {
                    lemma_follows_trans(self, &alerted, &before);
                    lemma_follows_trans(self, &before, old(self));
                }
                let ghost warning = if listed.len() >= 255 {
                    seq![
                        complaint(toks, before.position(), "Cannot have more than 255 parameters."@),
                    ]
                } else {
                    Seq::<Seq<char>>::empty()
                };
                let ghost whole = params_course(toks, before.position(), listed.len());
                proof {
                    let name = expect(
                        toks,
                        before.position(),
                        TokenType::Identifier,
                        "Expect parameter name."@,
                    );
                    assert(texts(alerted.reports()) =~= texts(before.reports()) + warning);
                    if param is Err {
                        assert(agree(whole, warned(warning, name)));
                        assert(texts(self.reports()) =~= texts(old(self).reports()) + (done + (
                        warning + name.reports)));
                    }
                    done = done + warning;
                }
                let param = param?;
                params.push(param);
                proof {
                    if self.diagnostics@.len() == old(self).diagnostics@.len() {
                        lemma_params_pieces_shared(listed, params@, listed.len());
                        let head = front + (if listed.len() == 0 {
                            Seq::<Piece>::empty()
                        } else {
                            params_pieces(listed, listed.len()) + seq![
                                Piece::Kind(TokenType::Comma),
                            ]
                        });
                        lemma_spelled_push(
                            head,
                            Piece::Kept(param),
                            tokens,
                            a,
                            before.current as int,
                        );
                        assert(head + seq![Piece::Kept(param)] =~= front + params_pieces(
                            params@,
                            params@.len(),
                        ));
                    }
                }
                let ghost pushed = *self;
                let more = self.matches(TokenType::Comma);
                proof {
                    if more {
                        assert(agree(
                            whole,
                            warned(
                                warning,
                                params_course(toks, self.position(), params@.len()),
                            ),
                        ));
                    } else {
                        assert(agree(
                            whole,
                            warned(warning, went(self.position(), Target::Neither)),
                        ));
                    }
                }
                proof {
                    lemma_follows_trans(self, &pushed, old(self));
                    if more && self.diagnostics@.len() == old(self).diagnostics@.len() {
                        lemma_spelled_push(
                            front + params_pieces(params@, params@.len()),
                            Piece::Kind(TokenType::Comma),
                            tokens,
                            a,
                            pushed.current as int,
                        );
                        assert(front + params_pieces(params@, params@.len()) + seq![
                            Piece::Kind(TokenType::Comma),
                        ] =~= front + (params_pieces(params@, params@.len()) + seq![
                            Piece::Kind(TokenType::Comma),
                        ]));
                    }
                }
                if !more {
                    break ;
                }
            }
        } else {
            proof {
                assert(front + params_pieces(params@, params@.len()) =~= front);
            }
        }
        let ghost mut acc = front + params_pieces(params@, params@.len());
        let ghost listed = *self;
        let closing = self.consume(TokenType::RightParen, "Expect ')' after parameters.");
        proof {
            lemma_follows_trans(self, &listed, old(self));
        }
        closing?;
        let ghost closed = *self;
        let expect_body = crate::text::concat3("Expect '{' before ", kind, " body.");
        let brace = self.consume(TokenType::LeftBrace, expect_body.as_str());
        proof {
            lemma_follows_trans(self, &closed, old(self));
        }
        brace?;
        proof {
            if self.diagnostics@.len() == old(self).diagnostics@.len() {
                lemma_spelled_push(
                    acc,
                    Piece::Kind(TokenType::RightParen),
                    tokens,
                    a,
                    listed.current as int,
                );
                lemma_spelled_push(
                    acc + seq![Piece::Kind(TokenType::RightParen)],
                    Piece::Kind(TokenType::LeftBrace),
                    tokens,
                    a,
                    closed.current as int,
                );
            }
            acc = acc + seq![Piece::Kind(TokenType::RightParen)] + seq![
                Piece::Kind(TokenType::LeftBrace),
            ];
        }
        let ghost opened = *self;
        let body = self.block();
        proof {
            lemma_follows_trans(self, &opened, old(self));
        }
        let body = body?;
        proof {
            if self.diagnostics@.len() == old(self).diagnostics@.len() {
                assert(acc =~= function_head(FunctionDeclaration { name, params, body }));
                assert(cut(opened.current as int));
                assert(function_says(
                    FunctionDeclaration { name, params, body },
                    tokens,
                    a,
                    self.current as int,
                )) by {
                    reveal_with_fuel(function_says, 1);
                    reveal_with_fuel(list_says, 1);
                }
            }
        }
        Ok(FunctionDeclaration { name, params, body })
    }

    /// The declarations of a block, the opening brace already consumed.
    #[verifier::rlimit(60)]
    fn block(&mut self) -> (r: Result<Vec<Stmt>, Error>)
        requires
            old(self).wf(),
            old(self).behind(TokenType::LeftBrace),
        ensures
            final(self).follows(old(self)),
            r is Ok ==> final(self).advanced_after(old(self)),
            r is Ok ==> final(self).behind(TokenType::RightBrace),
            r matches Err(e) ==> e is Parse && final(self).failed_after(old(self)),
            r matches Ok(statements) ==> (final(self).reports().len() == old(self).reports().len()
                ==> forall|i: int|
                0 <= i < statements@.len() ==> stmt_sound(#[trigger] statements@[i])),
            r matches Ok(statements) ==> (final(self).reports().len() == old(self).reports().len()
                ==> list_says(
                statements@,
                final(self).source(),
                old(self).position(),
                final(self).position() - 1,
            )),
            final(self).took(
                old(self),
                r is Err,
                block_course(old(self).tokens(), old(self).numbered(), old(self).position()),
            ),
        decreases old(self).tokens.len() - old(self).current, 31int,
    {
        proof {
            lemma_block_course(self.tokens(), self.numbered(), self.position());
        }
        let ghost tokens = self.source();
        let ghost a = self.current as int;
        let mut statements: Vec<Stmt> = Vec::new();
        let ghost toks = self.tokens();
        proof {
            assert(list_says(statements@, tokens, a, a)) by {
                reveal_with_fuel(list_says, 1);
                reveal_with_fuel(says, 1);
            }
        }
        let ghost first = self.numbered();
        let ghost mut done = Seq::<Seq<char>>::empty();
        while !self.check(TokenType::RightBrace) && !self.is_at_end()
            invariant
                self.tokens() == toks,
                self.numbered() == first,
                texts(self.reports()) =~= texts(old(self).reports()) + done,
                agree(
                    block_course(toks, first, a),
                    warned(done, block_course(toks, first, self.position())),
                ),
                self.follows(old(self)),
                tokens == self.source(),
                a == old(self).current,
                a > 0,
                self.diagnostics@.len() == old(self).diagnostics@.len() ==> forall|i: int|
                    0 <= i < statements@.len() ==> stmt_sound(#[trigger] statements@[i]),
                self.diagnostics@.len() == old(self).diagnostics@.len() ==> list_says(
                    statements@,
                    tokens,
                    a,
                    self.current as int,
                ),
            decreases self.tokens.len() - self.current,
        {
            proof {
                lemma_block_course(self.tokens(), self.numbered(), self.position());
            }
            let ghost before = *self;
            let ghost listed = statements@;
            let statement = self.declaration();
            proof {
                lemma_follows_trans(self, &before, old(self));
            }
            proof {
                let read = declaration_course(toks, first, before.position());
                assert(agree(
                    block_course(toks, first, before.position()),
                    after(read, block_course(toks, first, read.pos)),
                ));
                done = done + read.reports;
            }
            statements.push(statement);
            proof {
                if self.diagnostics@.len() == old(self).diagnostics@.len() {
                    assert(statements@.drop_last() =~= listed);
                    assert(statements@.last() == statement);
                    assert(cut(before.current as int));
                    assert(list_says(statements@, tokens, a, self.current as int)) by {
                        reveal_with_fuel(list_says, 1);
                        reveal_with_fuel(says, 1);
                    }
                }
            }
        }
        proof {
            lemma_block_course(self.tokens(), self.numbered(), self.position());
        }
        let ghost before = *self;
        let closing = self.consume(TokenType::RightBrace, "Expect '}' after block.");
        proof {
            lemma_follows_trans(self, &before, old(self));
        }
        closing?;
        Ok(statements)
    }

    /// An assignment, grouping to the right, or what binds more tightly. A
    /// target that is neither a variable nor a property is reported, and the
    /// target comes back alone.
    #[verifier::rlimit(60)]
    fn assignment(&mut self) -> (r: Result<Expr, Error>)
        requires
            old(self).wf(),
        ensures
            final(self).follows(old(self)),
            r is Ok ==> final(self).advanced_after(old(self)),
            r matches Err(e) ==> e is Parse && final(self).failed_after(old(self)),
            r matches Ok(e) ==> final(self).parsed(old(self), e, 1),
            final(self).took_expr(
                old(self),
                r,
                assignment_course(old(self).tokens(), old(self).numbered(), old(self).position()),
            ),
        decreases old(self).tokens.len() - old(self).current, 17int,
    {
        proof {
            lemma_assignment_course(self.tokens(), self.numbered(), self.position());
        }
        let expr = self.or_()?;
        let ghost left = *self;
        if self.matches(TokenType::Equal) {
            let equals = self.previous();
            let assigned = self.assignment();
            proof {
                lemma_follows_trans(self, &left, old(self));
            }
            let value = Box::new(assigned?);
            let ghost tokens = self.source();
            let ghost a = old(self).current as int;
            let ghost b = left.current as int;
            let ghost c = self.current as int;
            match expr {
                Expr::Variable { id, name } => {
                    proof {
                        if self.diagnostics@.len() == old(self).diagnostics@.len() {
                            let head = seq![
                                Piece::Numbered(name, id),
                                Piece::Kind(TokenType::Equal),
                            ];
                            lemma_spelled_one(Piece::Kind(TokenType::Equal), tokens, b);
                            lemma_spelled_join(
                                seq![Piece::Numbered(name, id)],
                                seq![Piece::Kind(TokenType::Equal)],
                                tokens,
                                a,
                                b,
                                b + 1,
                            );
                            assert(head =~= seq![Piece::Numbered(name, id)] + seq![
                                Piece::Kind(TokenType::Equal),
                            ]);
                            lemma_spelled_join(head, expr_pieces(*value), tokens, a, b + 1, c);
                        }
                    }
                    return Ok(Expr::Assign { id, name, value });
                },
                Expr::Get { object, name } => {
                    proof {
                        if self.diagnostics@.len() == old(self).diagnostics@.len() {
                            let target = expr_pieces(*object) + seq![
                                Piece::Kind(TokenType::Dot),
                                Piece::Kept(name),
                            ];
                            lemma_spelled_one(Piece::Kind(TokenType::Equal), tokens, b);
                            lemma_spelled_join(
                                target,
                                seq![Piece::Kind(TokenType::Equal)],
                                tokens,
                                a,
                                b,
                                b + 1,
                            );
                            assert(target + seq![Piece::Kind(TokenType::Equal)] =~= expr_pieces(
                                *object,
                            ) + seq![
                                Piece::Kind(TokenType::Dot),
                                Piece::Kept(name),
                                Piece::Kind(TokenType::Equal),
                            ]);
                            lemma_spelled_join(
                                target + seq![Piece::Kind(TokenType::Equal)],
                                expr_pieces(*value),
                                tokens,
                                a,
                                b + 1,
                                c,
                            );
                        }
                    }
                    return Ok(Expr::SetProperty { object, name, value });
                },
                other => {
                    // Reported, and parsing goes on with the left side.
                    let ghost before = *self;
                    self.error(&equals, "Invalid assignment target.");
                    proof {
                        lemma_follows_trans(self, &before, old(self));
                    }
                    return Ok(other);
                },
            }
        }
        Ok(expr)
    }

    /// `or`, grouping to the left.
    fn or_(&mut self) -> (r: Result<Expr, Error>)
        requires
            old(self).wf(),
        ensures
            final(self).follows(old(self)),
            r is Ok ==> final(self).advanced_after(old(self)),
            r matches Err(e) ==> e is Parse && final(self).failed_after(old(self)),
            r matches Ok(e) ==> final(self).parsed(old(self), e, 2),
            final(self).took_expr(
                old(self),
                r,
                level_course(old(self).tokens(), old(self).numbered(), old(self).position(), 2),
            ),
        decreases old(self).tokens.len() - old(self).current, 16int,
    {
        proof {
            lemma_level_course(self.tokens(), self.numbered(), self.position(), 2);
        }
        let ghost toks = self.tokens();
        let ghost first = self.numbered();
        let ghost a = self.position();
        let mut expr = self.and_()?;
        let ghost mut done = level_course(toks, first, a, 3).reports;
        loop
            invariant
                self.advanced_after(old(self)),
                self.tokens() == toks,
                self.numbered() == first,
                a == old(self).position(),
                texts(self.reports()) =~= texts(old(self).reports()) + done,
                agree(
                    level_course(toks, first, a, 2),
                    warned(
                        done,
                        more_course(toks, first, self.position(), 2, target_of(expr)),
                    ),
                ),
                self.parsed(old(self), expr, 2),
            ensures
                agree(
                    level_course(toks, first, a, 2),
                    warned(done, went(self.position(), target_of(expr))),
                ),
            decreases self.tokens.len() - self.current,
        {
            proof {
                lemma_more_course(self.tokens(), self.numbered(), self.position(), 2, target_of(expr));
            }
            let ghost before = *self;
            if !self.matches(TokenType::Or) {
                break ;
            }
            let operator: Token = self.previous();
            let operand = self.and_();
            proof {
                lemma_follows_trans(self, &before, old(self));
            }
            let right: Expr = operand?;
            proof {
                done = done + level_course(toks, first, before.position() + 1, 3).reports;
            }
            proof {
                if self.diagnostics@.len() == old(self).diagnostics@.len() {
                    lemma_reads_logical(
                        self.source(),
                        old(self).current as int,
                        before.current as int,
                        self.current as int,
                        expr,
                        operator,
                        right,
                    );
                }
            }
            expr = Expr::Logical { left: Box::new(expr), operator, right: Box::new(right) };
        }
        Ok(expr)
    }

    /// `and`, grouping to the left.
    fn and_(&mut self) -> (r: Result<Expr, Error>)
        requires
            old(self).wf(),
        ensures
            final(self).follows(old(self)),
            r is Ok ==> final(self).advanced_after(old(self)),
            r matches Err(e) ==> e is Parse && final(self).failed_after(old(self)),
            r matches Ok(e) ==> final(self).parsed(old(self), e, 3),
            final(self).took_expr(
                old(self),
                r,
                level_course(old(self).tokens(), old(self).numbered(), old(self).position(), 3),
            ),
        decreases old(self).tokens.len() - old(self).current, 15int,
    {
        proof {
            lemma_level_course(self.tokens(), self.numbered(), self.position(), 3);
        }
        let ghost toks = self.tokens();
        let ghost first = self.numbered();
        let ghost a = self.position();
        let mut expr = self.equality()?;
        let ghost mut done = level_course(toks, first, a, 4).reports;
        loop
            invariant
                self.advanced_after(old(self)),
                self.tokens() == toks,
                self.numbered() == first,
                a == old(self).position(),
                texts(self.reports()) =~= texts(old(self).reports()) + done,
                agree(
                    level_course(toks, first, a, 3),
                    warned(
                        done,
                        more_course(toks, first, self.position(), 3, target_of(expr)),
                    ),
                ),
                self.parsed(old(self), expr, 3),
            ensures
                agree(
                    level_course(toks, first, a, 3),
                    warned(done, went(self.position(), target_of(expr))),
                ),
            decreases self.tokens.len() - self.current,
        {
            proof {
                lemma_more_course(self.tokens(), self.numbered(), self.position(), 3, target_of(expr));
            }
            let ghost before = *self;
            if !self.matches(TokenType::And) {
                break ;
            }
            let operator: Token = self.previous();
            let operand = self.equality();
            proof {
                lemma_follows_trans(self, &before, old(self));
            }
            let right: Expr = operand?;
            proof {
                done = done + level_course(toks, first, before.position() + 1, 4).reports;
            }
            proof {
                if self.diagnostics@.len() == old(self).diagnostics@.len() {
                    lemma_reads_logical(
                        self.source(),
                        old(self).current as int,
                        before.current as int,
                        self.current as int,
                        expr,
                        operator,
                        right,
                    );
                }
            }
            expr = Expr::Logical { left: Box::new(expr), operator, right: Box::new(right) };
        }
        Ok(expr)
    }

    /// `==` and `!=`, grouping to the left.
    fn equality(&mut self) -> (r: Result<Expr, Error>)
        requires
            old(self).wf(),
        ensures
            final(self).follows(old(self)),
            r is Ok ==> final(self).advanced_after(old(self)),
            r matches Err(e) ==> e is Parse && final(self).failed_after(old(self)),
            r matches Ok(e) ==> final(self).parsed(old(self), e, 4),
            final(self).took_expr(
                old(self),
                r,
                level_course(old(self).tokens(), old(self).numbered(), old(self).position(), 4),
            ),
        decreases old(self).tokens.len() - old(self).current, 14int,
    {
        proof {
            lemma_level_course(self.tokens(), self.numbered(), self.position(), 4);
        }
        let ghost toks = self.tokens();
        let ghost first = self.numbered();
        let ghost a = self.position();
        let mut expr = self.comparison()?;
        let ghost mut done = level_course(toks, first, a, 5).reports;
        loop
            invariant
                self.advanced_after(old(self)),
                self.tokens() == toks,
                self.numbered() == first,
                a == old(self).position(),
                texts(self.reports()) =~= texts(old(self).reports()) + done,
                agree(
                    level_course(toks, first, a, 4),
                    warned(
                        done,
                        more_course(toks, first, self.position(), 4, target_of(expr)),
                    ),
                ),
                self.parsed(old(self), expr, 4),
            ensures
                agree(
                    level_course(toks, first, a, 4),
                    warned(done, went(self.position(), target_of(expr))),
                ),
            decreases self.tokens.len() - self.current,
        {
            proof {
                lemma_more_course(self.tokens(), self.numbered(), self.position(), 4, target_of(expr));
            }
            let ghost before = *self;
            if !self.matches_any([TokenType::BangEqual, TokenType::EqualEqual]) {
                break ;
            }
            let operator: Token = self.previous();
            let operand = self.comparison();
            proof {
                lemma_follows_trans(self, &before, old(self));
            }
            let right: Expr = operand?;
            proof {
                done = done + level_course(toks, first, before.position() + 1, 5).reports;
            }
            proof {
                if self.diagnostics@.len() == old(self).diagnostics@.len() {
                    lemma_reads_binary(
                        self.source(),
                        old(self).current as int,
                        before.current as int,
                        self.current as int,
                        expr,
                        operator,
                        right,
                    );
                }
            }
            expr = Expr::Binary { left: Box::new(expr), operator, right: Box::new(right) };
        }
        Ok(expr)
    }

    /// Whether the parser stands at a token of kind `token_type`. At the
    /// end of input it stands at none.
    fn check(&self, token_type: TokenType) -> (r: bool)
        requires
            self.wf(),
        ensures
            r == (!self.at_end() && kind_at(self.tokens(), self.position()) == token_type),
    {
        if self.is_at_end() {
            return false;
        }
        token_type == self.tokens[self.current].tpe
    }

    /// Consumes the token at which the parser stands if it is of kind
    /// `tpe`; reports `message` there if it is not.
    fn consume(&mut self, tpe: TokenType, message: &str) -> (r: Result<Token, Error>)
        requires
            old(self).wf(),
        ensures
            final(self).follows(old(self)),
            r is Ok <==> (!old(self).at_end() && kind_at(old(self).tokens(), old(self).position())
                == tpe),
            r matches Ok(token) ==> {
                &&& token == old(self).tokens()[old(self).position()]
                &&& final(self).position() == old(self).position() + 1
                &&& final(self).reports() == old(self).reports()
            },
            r matches Err(e) ==> {
                &&& e is Parse
                &&& final(self).position() == old(self).position()
                &&& final(self).failed_after(old(self))
            },
            final(self).took(
                old(self),
                r is Err,
                expect(old(self).tokens(), old(self).position(), tpe, message@),
            ),
    {
        if self.check(tpe) {
            Ok(self.advance())
        } else {
            let token = self.peek();
            Err(self.error(&token, message))
        }
    }

    /// Steps over the token at which the parser stands, unless that is the
    /// end of input, and hands out the token behind which it then stands.
    fn advance(&mut self) -> (r: Token)
        requires
            old(self).wf(),
            !old(self).at_end() || old(self).position() > 0,
        ensures
            final(self).follows(old(self)),
            final(self).reports() == old(self).reports(),
            final(self).position() == old(self).position() + if old(self).at_end() {
                0int
            } else {
                1int
            },
            r == final(self).tokens()[final(self).position() - 1],
    {
        if !self.is_at_end() {
            self.current += 1;
        }
        self.previous()
    }

    /// The token behind which the parser stands.
    fn previous(&self) -> (r: Token)
        requires
            self.wf(),
            self.position() > 0,
        ensures
            r == self.tokens()[self.position() - 1],
    {
        self.tokens[self.current - 1].clone()
    }

    /// Reports `message` at `token` and hands out the failure that stops
    /// the declaration being parsed. At an error token the lexer's own
    /// message is reported.
    fn error(&mut self, token: &Token, message: &str) -> (r: Error)
        requires
            old(self).wf(),
        ensures
            r is Parse,
            final(self).failed_after(old(self)),
            final(self).position() == old(self).position(),
            final(self).reports().len() == old(self).reports().len() + 1,
            final(self).reports().last()@ == complaint_of(token@, message@),
            texts(final(self).reports()) == texts(old(self).reports()).push(
                complaint_of(token@, message@),
            ),
    {
        let text = if token.tpe == TokenType::Error {
            parser_error(token, token.lexeme.as_str())
        } else {
            parser_error(token, message)
        };
        proof {
            reveal(complaint_of);
        }
        self.diagnostics.push(text);
        assert(self.diagnostics@.subrange(0, old(self).diagnostics@.len() as int) =~= old(self).diagnostics@);
        assert(texts(self.diagnostics@) =~= texts(old(self).diagnostics@).push(
            complaint_of(token@, message@),
        ));
        Error::Parse
    }

    /// Skips to the next statement boundary.
    fn synchronize(&mut self)
        requires
            old(self).wf(),
        ensures
            final(self).follows(old(self)),
            final(self).reports() == old(self).reports(),
            !old(self).at_end() ==> final(self).position() == recovery_point(
                old(self).tokens(),
                old(self).position() + 1,
            ),
            old(self).at_end() ==> final(self).position() == old(self).position(),
            !old(self).at_end() ==> final(self).position() > old(self).position(),
    {
        if self.is_at_end() {
            return ;
        }
        self.current += 1;
        while !self.is_at_end()
            invariant
                self.wf(),
                self.tokens == old(self).tokens,
                self.diagnostics == old(self).diagnostics,
                self.first_id == old(self).first_id,
                self.current > old(self).current,
                forall|i: int|
                    old(self).current <= i < self.current ==> #[trigger] kind_at(self.tokens@, i)
                        != TokenType::EOF,
                !old(self).at_end(),
                recovery_point(self.tokens@, self.current as int) == recovery_point(
                    old(self).tokens@,
                    old(self).current + 1,
                ),
            decreases self.tokens.len() - self.current,
        {
            if self.tokens[self.current - 1].tpe == TokenType::Semicolon {
                return ;
            }
            match self.tokens[self.current].tpe {
                TokenType::Class
                | TokenType::Fun
                | TokenType::Var
                | TokenType::For
                | TokenType::If
                | TokenType::While
                | TokenType::Print
                | TokenType::Return => {
                    return ;
                },
                _ => {
                    self.current += 1;
                },
            }
        }
    }

    /// The token at which the parser stands; behind the last token, an
    /// end-of-input token of line zero.
    fn peek(&self) -> (r: Token)
        requires
            self.wf(),
        ensures
            self.position() < self.tokens().len() ==> r == self.tokens()[self.position()],
            self.position() >= self.tokens().len() ==> r.tpe == TokenType::EOF,
            r@ == token_at(self.tokens(), self.position()),
    {
        if self.current < self.tokens.len() {
            self.tokens[self.current].clone()
        } else {
            Token::new(TokenType::EOF, "", 0)
        }
    }

    fn is_at_end(&self) -> (r: bool)
        requires
            self.wf(),
        ensures
            r == self.at_end(),
    {
        self.current >= self.tokens.len() || self.tokens[self.current].tpe == TokenType::EOF
    }

    /// Consumes the token at which the parser stands if it is of kind
    /// `tpe`.
    fn matches(&mut self, tpe: TokenType) -> (r: bool)
        requires
            old(self).wf(),
        ensures
            final(self).follows(old(self)),
            final(self).reports() == old(self).reports(),
            r == (!old(self).at_end() && kind_at(old(self).tokens(), old(self).position())
                == tpe),
            final(self).position() == old(self).position() + if r {
                1int
            } else {
                0int
            },
    {
        if self.check(tpe) {
            self.current += 1;
            true
        } else {
            false
        }
    }

    /// Consumes the token at which the parser stands if its kind is among
    /// `types`.
    fn matches_any<const N: usize>(&mut self, types: [TokenType; N]) -> (r: bool)
        requires
            old(self).wf(),
        ensures
            final(self).follows(old(self)),
            final(self).reports() == old(self).reports(),
            r == (!old(self).at_end() && types@.contains(
                kind_at(old(self).tokens(), old(self).position()),
            )),
            final(self).position() == old(self).position() + if r {
                1int
            } else {
                0int
            },
    {
        let mut i: usize = 0;
        while i < N
            invariant
                i <= N,
                self.wf(),
                *self == *old(self),
                forall|j: int|
                    0 <= j < i ==> !(!self.at_end() && kind_at(self.tokens(), self.position())
                        == types@[j]),
            decreases N - i,
        {
            if self.check(types[i]) {
                self.current += 1;
                assert(types@.contains(types@[i as int]));
                return true;
            }
            i += 1;
        }
        false
    }

    /// The number of the token at index `at`. A number too large to hold
    /// is reported.
    fn fresh_id(&mut self, at: usize) -> (r: usize)
        requires
            old(self).wf(),
        ensures
            final(self).follows(old(self)),
            final(self).position() == old(self).position(),
            final(self).reports().len() == old(self).reports().len() ==> r == final(self).numbered()
                + at,
            texts(final(self).reports()) =~= texts(old(self).reports()) + numbering(
                old(self).tokens(),
                old(self).numbered(),
                at as int,
                old(self).position(),
            ),
    {
        if self.first_id <= usize::MAX - at {
            self.first_id + at
        } else {
            let token = self.peek();
            self.error(&token, "Too many names in one program.");
            usize::MAX
        }
    }

    /// `>`, `>=`, `<` and `<=`, grouping to the left.
    fn comparison(&mut self) -> (r: Result<Expr, Error>)
        requires
            old(self).wf(),
        ensures
            final(self).follows(old(self)),
            r is Ok ==> final(self).advanced_after(old(self)),
            r matches Err(e) ==> e is Parse && final(self).failed_after(old(self)),
            r matches Ok(e) ==> final(self).parsed(old(self), e, 5),
            final(self).took_expr(
                old(self),
                r,
                level_course(old(self).tokens(), old(self).numbered(), old(self).position(), 5),
            ),
        decreases old(self).tokens.len() - old(self).current, 13int,
    {
        proof {
            lemma_level_course(self.tokens(), self.numbered(), self.position(), 5);
        }
        let ghost toks = self.tokens();
        let ghost first = self.numbered();
        let ghost a = self.position();
        let mut expr = self.addition()?;
        let ghost mut done = level_course(toks, first, a, 6).reports;
        loop
            invariant
                self.advanced_after(old(self)),
                self.tokens() == toks,
                self.numbered() == first,
                a == old(self).position(),
                texts(self.reports()) =~= texts(old(self).reports()) + done,
                agree(
                    level_course(toks, first, a, 5),
                    warned(
                        done,
                        more_course(toks, first, self.position(), 5, target_of(expr)),
                    ),
                ),
                self.parsed(old(self), expr, 5),
            ensures
                agree(
                    level_course(toks, first, a, 5),
                    warned(done, went(self.position(), target_of(expr))),
                ),
            decreases self.tokens.len() - self.current,
        {
            proof {
                lemma_more_course(self.tokens(), self.numbered(), self.position(), 5, target_of(expr));
            }
            let ghost before = *self;
            if !self.matches_any([TokenType::Greater, TokenType::GreaterEqual, TokenType::Less, TokenType::LessEqual]) {
                break ;
            }
            let operator: Token = self.previous();
            let operand = self.addition();
            proof {
                lemma_follows_trans(self, &before, old(self));
            }
            let right: Expr = operand?;
            proof {
                done = done + level_course(toks, first, before.position() + 1, 6).reports;
            }
            proof {
                if self.diagnostics@.len() == old(self).diagnostics@.len() {
                    lemma_reads_binary(
                        self.source(),
                        old(self).current as int,
                        before.current as int,
                        self.current as int,
                        expr,
                        operator,
                        right,
                    );
                }
            }
            expr = Expr::Binary { left: Box::new(expr), operator, right: Box::new(right) };
        }
        Ok(expr)
    }

    /// `-` and `+`, grouping to the left.
    fn addition(&mut self) -> (r: Result<Expr, Error>)
        requires
            old(self).wf(),
        ensures
            final(self).follows(old(self)),
            r is Ok ==> final(self).advanced_after(old(self)),
            r matches Err(e) ==> e is Parse && final(self).failed_after(old(self)),
            r matches Ok(e) ==> final(self).parsed(old(self), e, 6),
            final(self).took_expr(
                old(self),
                r,
                level_course(old(self).tokens(), old(self).numbered(), old(self).position(), 6),
            ),
        decreases old(self).tokens.len() - old(self).current, 12int,
    {
        proof {
            lemma_level_course(self.tokens(), self.numbered(), self.position(), 6);
        }
        let ghost toks = self.tokens();
        let ghost first = self.numbered();
        let ghost a = self.position();
        let mut expr = self.multiplication()?;
        let ghost mut done = level_course(toks, first, a, 7).reports;
        loop
            invariant
                self.advanced_after(old(self)),
                self.tokens() == toks,
                self.numbered() == first,
                a == old(self).position(),
                texts(self.reports()) =~= texts(old(self).reports()) + done,
                agree(
                    level_course(toks, first, a, 6),
                    warned(
                        done,
                        more_course(toks, first, self.position(), 6, target_of(expr)),
                    ),
                ),
                self.parsed(old(self), expr, 6),
            ensures
                agree(
                    level_course(toks, first, a, 6),
                    warned(done, went(self.position(), target_of(expr))),
                ),
            decreases self.tokens.len() - self.current,
        {
            proof {
                lemma_more_course(self.tokens(), self.numbered(), self.position(), 6, target_of(expr));
            }
            let ghost before = *self;
            if !self.matches_any([TokenType::Minus, TokenType::Plus]) {
                break ;
            }
            let operator: Token = self.previous();
            let operand = self.multiplication();
            proof {
                lemma_follows_trans(self, &before, old(self));
            }
            let right: Expr = operand?;
            proof {
                done = done + level_course(toks, first, before.position() + 1, 7).reports;
            }
            proof {
                if self.diagnostics@.len() == old(self).diagnostics@.len() {
                    lemma_reads_binary(
                        self.source(),
                        old(self).current as int,
                        before.current as int,
                        self.current as int,
                        expr,
                        operator,
                        right,
                    );
                }
            }
            expr = Expr::Binary { left: Box::new(expr), operator, right: Box::new(right) };
        }
        Ok(expr)
    }

    /// `/` and `*`, grouping to the left.
    fn multiplication(&mut self) -> (r: Result<Expr, Error>)
        requires
            old(self).wf(),
        ensures
            final(self).follows(old(self)),
            r is Ok ==> final(self).advanced_after(old(self)),
            r matches Err(e) ==> e is Parse && final(self).failed_after(old(self)),
            r matches Ok(e) ==> final(self).parsed(old(self), e, 7),
            final(self).took_expr(
                old(self),
                r,
                level_course(old(self).tokens(), old(self).numbered(), old(self).position(), 7),
            ),
        decreases old(self).tokens.len() - old(self).current, 11int,
    {
        proof {
            lemma_level_course(self.tokens(), self.numbered(), self.position(), 7);
            lemma_level_course(self.tokens(), self.numbered(), self.position(), 8);
        }
        let ghost toks = self.tokens();
        let ghost first = self.numbered();
        let ghost a = self.position();
        let mut expr = self.unary()?;
        let ghost mut done = level_course(toks, first, a, 8).reports;
        loop
            invariant
                self.advanced_after(old(self)),
                self.tokens() == toks,
                self.numbered() == first,
                a == old(self).position(),
                texts(self.reports()) =~= texts(old(self).reports()) + done,
                agree(
                    level_course(toks, first, a, 7),
                    warned(
                        done,
                        more_course(toks, first, self.position(), 7, target_of(expr)),
                    ),
                ),
                self.parsed(old(self), expr, 7),
            ensures
                agree(
                    level_course(toks, first, a, 7),
                    warned(done, went(self.position(), target_of(expr))),
                ),
            decreases self.tokens.len() - self.current,
        {
            proof {
                lemma_more_course(self.tokens(), self.numbered(), self.position(), 7, target_of(expr));
                lemma_level_course(self.tokens(), self.numbered(), self.position() + 1, 8);
            }
            let ghost before = *self;
            if !self.matches_any([TokenType::Slash, TokenType::Star]) {
                break ;
            }
            let operator: Token = self.previous();
            let operand = self.unary();
            proof {
                lemma_follows_trans(self, &before, old(self));
            }
            let right: Expr = operand?;
            proof {
                done = done + level_course(toks, first, before.position() + 1, 8).reports;
            }
            proof {
                if self.diagnostics@.len() == old(self).diagnostics@.len() {
                    lemma_reads_binary(
                        self.source(),
                        old(self).current as int,
                        before.current as int,
                        self.current as int,
                        expr,
                        operator,
                        right,
                    );
                }
            }
            expr = Expr::Binary { left: Box::new(expr), operator, right: Box::new(right) };
        }
        Ok(expr)
    }

    /// `!` and `-` before an operand.
    #[verifier::rlimit(60)]
    fn unary(&mut self) -> (r: Result<Expr, Error>)
        requires
            old(self).wf(),
        ensures
            final(self).follows(old(self)),
            r is Ok ==> final(self).advanced_after(old(self)),
            r matches Err(e) ==> e is Parse && final(self).failed_after(old(self)),
            r matches Ok(e) ==> final(self).parsed(old(self), e, 8),
            final(self).took_expr(
                old(self),
                r,
                unary_course(old(self).tokens(), old(self).numbered(), old(self).position()),
            ),
        decreases old(self).tokens.len() - old(self).current, 10int,
    {
        proof {
            lemma_unary_course(self.tokens(), self.numbered(), self.position());
            lemma_unary_course(self.tokens(), self.numbered(), self.position() + 1);
        }
        let ghost toks = self.tokens();
        let ghost first = self.numbered();
        let ghost a = self.position();
        if self.matches(TokenType::Bang) || self.matches(TokenType::Minus) {
            let ghost before = *self;
            let operator: Token = self.previous();
            let operand = self.unary();
            proof {
                lemma_follows_trans(self, &before, old(self));
            }
            let right = operand?;
            proof {
                assert(agree(
                    unary_course(toks, first, a),
                    settled(unary_course(toks, first, a + 1)),
                ));
            }
            proof {
                if self.diagnostics@.len() == old(self).diagnostics@.len() {
                    let a = old(self).current as int;
                    lemma_spelled_one(Piece::Kept(operator), self.source(), a);
                    lemma_spelled_join(
                        seq![Piece::Kept(operator)],
                        expr_pieces(right),
                        self.source(),
                        a,
                        a + 1,
                        self.current as int,
                    );
                }
            }
            Ok(Expr::Unary { operator, right: Box::new(right) })
        } else {
            self.call()
        }
    }

    /// What stands alone, followed by any number of calls and properties.
    #[verifier::rlimit(100)]
    fn call(&mut self) -> (r: Result<Expr, Error>)
        requires
            old(self).wf(),
        ensures
            final(self).follows(old(self)),
            r is Ok ==> final(self).advanced_after(old(self)),
            r matches Err(e) ==> e is Parse && final(self).failed_after(old(self)),
            r matches Ok(e) ==> final(self).parsed(old(self), e, 9),
            final(self).took_expr(
                old(self),
                r,
                call_course(old(self).tokens(), old(self).numbered(), old(self).position()),
            ),
        decreases old(self).tokens.len() - old(self).current, 9int,
    {
        proof {
            lemma_call_course(self.tokens(), self.numbered(), self.position());
        }
        let ghost toks = self.tokens();
        let ghost first = self.numbered();
        let ghost start = self.position();
        let mut expr = self.primary()?;
        let ghost mut done = primary_course(toks, first, start).reports;
        loop
            invariant
                self.advanced_after(old(self)),
                self.tokens() == toks,
                self.numbered() == first,
                start == old(self).position(),
                texts(self.reports()) =~= texts(old(self).reports()) + done,
                agree(
                    call_course(toks, first, start),
                    warned(done, calls_course(toks, first, self.position(), target_of(expr))),
                ),
                self.parsed(old(self), expr, 9),
            ensures
                agree(
                    call_course(toks, first, start),
                    warned(done, went(self.position(), target_of(expr))),
                ),
            decreases self.tokens.len() - self.current,
        {
            proof {
                lemma_calls_course(self.tokens(), self.numbered(), self.position(), target_of(expr));
            }
            let ghost before = *self;
            let ghost tokens = self.source();
            let ghost a = old(self).current as int;
            let ghost b = before.current as int;
            if self.matches(TokenType::LeftParen) {
                let ghost opened = *self;
                let ghost callee = expr;
                let called = self.finish_call(expr);
                proof {
                    lemma_follows_trans(self, &opened, old(self));
                }
                proof {
                    let read = finish_call_course(toks, first, before.position() + 1);
                    let rest = calls_course(toks, first, before.position(), target_of(callee));
                    if called is Err {
                        assert(agree(rest, read));
                    } else {
                        assert(agree(
                            rest,
                            after(read, calls_course(toks, first, read.pos, Target::Neither)),
                        ));
                    }
                }
                expr = called?;
                proof {
                    done = done + finish_call_course(toks, first, before.position() + 1).reports;
                }
                let ghost made = expr;
                proof {
                    if self.diagnostics@.len() == old(self).diagnostics@.len() {
                        let c = self.current as int;
                        let open = seq![Piece::Kind(TokenType::LeftParen)];
                        lemma_spelled_one(Piece::Kind(TokenType::LeftParen), tokens, b);
                        lemma_spelled_join(expr_pieces(callee), open, tokens, a, b, b + 1);
                        match made {
                            Expr::Call { callee: called, paren, arguments } => {
                                let rest = args_pieces(arguments@, arguments@.len()) + seq![
                                    Piece::Kept(paren),
                                ];
                                lemma_spelled_join(
                                    expr_pieces(callee) + open,
                                    rest,
                                    tokens,
                                    a,
                                    b + 1,
                                    c,
                                );
                                assert(expr_pieces(made) =~= expr_pieces(callee) + open + rest);
                            },
                            _ => {},
                        }
                    }
                }
            } else if self.matches(TokenType::Dot) {
                let ghost dotted = *self;
                let property = self.consume(TokenType::Identifier, "Expect property after '.'.");
                proof {
                    lemma_follows_trans(self, &dotted, old(self));
                }
                proof {
                    let rest = calls_course(toks, first, before.position(), target_of(expr));
                    if property is Err {
                        assert(agree(
                            rest,
                            expect(
                                toks,
                                before.position() + 1,
                                TokenType::Identifier,
                                "Expect property after '.'."@,
                            ),
                        ));
                    } else {
                        assert(agree(
                            rest,
                            calls_course(toks, first, before.position() + 2, Target::Property),
                        ));
                    }
                }
                let name = property?;
                proof {
                    if self.diagnostics@.len() == old(self).diagnostics@.len() {
                        let tail = seq![Piece::Kind(TokenType::Dot), Piece::Kept(name)];
                        lemma_spelled_one(Piece::Kind(TokenType::Dot), tokens, b);
                        lemma_spelled_push(
                            seq![Piece::Kind(TokenType::Dot)],
                            Piece::Kept(name),
                            tokens,
                            b,
                            b + 1,
                        );
                        assert(tail =~= seq![Piece::Kind(TokenType::Dot)] + seq![Piece::Kept(name)]);
                        lemma_spelled_join(expr_pieces(expr), tail, tokens, a, b, b + 2);
                    }
                }
                expr = Expr::Get { object: Box::new(expr), name };
            } else {
                proof {
                    assert(agree(
                        calls_course(toks, first, before.position(), target_of(expr)),
                        went(before.position(), target_of(expr)),
                    ));
                }
                break ;
            }
        }
        Ok(expr)
    }

    /// The arguments of a call, the opening parenthesis already consumed.
    /// More than 255 arguments are reported, and parsing goes on.
    #[verifier::rlimit(100)]
    fn finish_call(&mut self, callee: Expr) -> (r: Result<Expr, Error>)
        requires
            old(self).wf(),
        ensures
            final(self).follows(old(self)),
            r is Ok ==> final(self).advanced_after(old(self)),
            r matches Err(e) ==> e is Parse && final(self).failed_after(old(self)),
            r matches Ok(Expr::Call { callee: called, paren, arguments }) ==> {
                &&& *called == callee
                &&& paren.tpe == TokenType::RightParen
                &&& final(self).reports().len() == old(self).reports().len() ==> {
                    &&& arguments@.len() <= 255
                    &&& spelled(
                        args_pieces(arguments@, arguments@.len()) + seq![Piece::Kept(paren)],
                        final(self).source(),
                        old(self).position(),
                        final(self).position(),
                    )
                    &&& forall|i: int|
                        0 <= i < arguments@.len() ==> well_formed(#[trigger] arguments@[i])
                }
            },
            r matches Ok(e) ==> e is Call,
            final(self).took(
                old(self),
                r is Err,
                finish_call_course(old(self).tokens(), old(self).numbered(), old(self).position()),
            ),
        decreases old(self).tokens.len() - old(self).current, 32int,
    {
        proof {
            lemma_finish_call_course(self.tokens(), self.numbered(), self.position());
        }
        let mut arguments: Vec<Expr> = Vec::new();
        let ghost toks = self.tokens();
        let ghost first = self.numbered();
        let ghost mut done = Seq::<Seq<char>>::empty();
        let ghost tokens = self.source();
        let ghost a = old(self).current as int;
        if !self.check(TokenType::RightParen) {
            proof {
                lemma_spelled_none(tokens, a);
            }
            loop
                invariant_except_break
                    agree(
                        args_course(toks, first, a, 0),
                        warned(
                            done,
                            args_course(toks, first, self.position(), arguments@.len()),
                        ),
                    ),
                    self.diagnostics@.len() == old(self).diagnostics@.len() ==> spelled(
                        if arguments@.len() == 0 {
                            Seq::<Piece>::empty()
                        } else {
                            args_pieces(arguments@, arguments@.len()) + seq![
                                Piece::Kind(TokenType::Comma),
                            ]
                        },
                        tokens,
                        a,
                        self.current as int,
                    ),
                invariant
                    self.follows(old(self)),
                    !stands_at(toks, a, TokenType::RightParen),
                    self.tokens() == toks,
                    self.numbered() == first,
                    texts(self.reports()) =~= texts(old(self).reports()) + done,
                    tokens == self.source(),
                    a == old(self).current,
                    self.diagnostics@.len() == old(self).diagnostics@.len() ==> arguments@.len()
                        <= MAX_ARITY && forall|i: int|
                        0 <= i < arguments@.len() ==> well_formed(#[trigger] arguments@[i]),
                ensures
                    agree(
                        args_course(toks, first, a, 0),
                        warned(done, went(self.position(), Target::Neither)),
                    ),
                    self.diagnostics@.len() == old(self).diagnostics@.len() ==> spelled(
                        args_pieces(arguments@, arguments@.len()),
                        tokens,
                        a,
                        self.current as int,
                    ),
                decreases self.tokens.len() - self.current,
            {
                proof {
                    lemma_args_course(self.tokens(), self.numbered(), self.position(), arguments@.len());
                    lemma_finish_call_course(toks, first, a);
                }
                let ghost before = *self;
                let ghost listed = arguments@;
                if arguments.len() >= MAX_ARITY {
                    // Reported, and parsing goes on.
                    let token = self.peek();
                    self.error(&token, "Cannot have more than 255 arguments.");
                }
                let ghost alerted = *self;
                let argument = self.expression();
                proof {
                    lemma_follows_trans(self, &alerted, &before);
                    lemma_follows_trans(self, &before, old(self));
                }
                let ghost warning = if listed.len() >= 255 {
                    seq![complaint(toks, before.position(), "Cannot have more than 255 arguments."@)]
                } else {
                    Seq::<Seq<char>>::empty()
                };
                let ghost read = expression_course(toks, first, before.position());
                let ghost whole = args_course(toks, first, before.position(), listed.len());
                proof {
                    assert(texts(alerted.reports()) =~= texts(before.reports()) + warning);
                    assert(texts(self.reports()) =~= texts(old(self).reports()) + (done + (warning
                        + read.reports)));
                    if argument is Err {
                        assert(agree(whole, warned(warning, settled(read))));
                        assert(agree(
                            finish_call_course(toks, first, a),
                            warned(done, warned(warning, settled(read))),
                        ));
                    }
                    done = done + (warning + read.reports);
                }
                let argument = argument?;
                arguments.push(argument);
                proof {
                    if self.diagnostics@.len() == old(self).diagnostics@.len() {
                        let b = before.current as int;
                        let c = self.current as int;
                        lemma_args_pieces_shared(listed, arguments@, listed.len());
                        let head = if listed.len() == 0 {
                            Seq::<Piece>::empty()
                        } else {
                            args_pieces(listed, listed.len()) + seq![Piece::Kind(TokenType::Comma)]
                        };
                        lemma_spelled_join(head, expr_pieces(argument), tokens, a, b, c);
                        assert(head + expr_pieces(argument) =~= args_pieces(
                            arguments@,
                            arguments@.len(),
                        ));
                    }
                }
                let ghost pushed = *self;
                let more = self.matches(TokenType::Comma);
                proof {
                    if more {
                        assert(agree(
                            whole,
                            warned(
                                warning + read.reports,
                                args_course(toks, first, self.position(), arguments@.len()),
                            ),
                        ));
                    } else {
                        assert(agree(whole, warned(warning, settled(read))));
                    }
                }
                proof {
                    lemma_follows_trans(self, &pushed, old(self));
                    if more && self.diagnostics@.len() == old(self).diagnostics@.len() {
                        let c = pushed.current as int;
                        lemma_spelled_one(Piece::Kind(TokenType::Comma), tokens, c);
                        lemma_spelled_join(
                            args_pieces(arguments@, arguments@.len()),
                            seq![Piece::Kind(TokenType::Comma)],
                            tokens,
                            a,
                            c,
                            c + 1,
                        );
                    }
                }
                if !more {
                    break ;
                }
            }
        } else {
            proof {
                lemma_spelled_none(tokens, a);
                assert(args_pieces(arguments@, arguments@.len()) =~= Seq::<Piece>::empty());
            }
        }
        let ghost listed = *self;
        let closing = self.consume(TokenType::RightParen, "Expect ')' after arguments.");
        proof {
            lemma_follows_trans(self, &listed, old(self));
        }
        let paren = closing?;
        proof {
            if self.diagnostics@.len() == old(self).diagnostics@.len() {
                let c = listed.current as int;
                lemma_spelled_one(Piece::Kept(paren), tokens, c);
                lemma_spelled_join(
                    args_pieces(arguments@, arguments@.len()),
                    seq![Piece::Kept(paren)],
                    tokens,
                    a,
                    c,
                    c + 1,
                );
            }
        }
        Ok(Expr::Call { callee: Box::new(callee), paren, arguments })
    }

    /// What stands alone: a literal, a name, `this`, `super` with its
    /// method, or an expression in parentheses.
    #[verifier::rlimit(60)]
    fn primary(&mut self) -> (r: Result<Expr, Error>)
        requires
            old(self).wf(),
        ensures
            final(self).follows(old(self)),
            r is Ok ==> final(self).advanced_after(old(self)),
            r matches Err(e) ==> e is Parse && final(self).failed_after(old(self)),
            r matches Ok(e) ==> final(self).parsed(old(self), e, 10),
            final(self).took_expr(
                old(self),
                r,
                primary_course(old(self).tokens(), old(self).numbered(), old(self).position()),
            ),
        decreases old(self).tokens.len() - old(self).current, 8int,
    {
        proof {
            lemma_primary_course(self.tokens(), self.numbered(), self.position());
        }
        let token = self.peek();
        if self.is_at_end() {
            return Err(self.error(&token, "Expect expression."));
        }
        proof {
            reveal(fitted);
        }
        let ghost tokens = self.source();
        let ghost a = self.current as int;
        match token.tpe {
            TokenType::False => {
                self.current += 1;
                Ok(Expr::Literal { value: LiteralValue::Boolean(false) })
            },
            TokenType::True => {
                self.current += 1;
                Ok(Expr::Literal { value: LiteralValue::Boolean(true) })
            },
            TokenType::Nil => {
                self.current += 1;
                Ok(Expr::Literal { value: LiteralValue::Null })
            },
            TokenType::String => {
                self.current += 1;
                Ok(Expr::Literal { value: LiteralValue::String(token.lexeme) })
            },
            TokenType::Number => {
                self.current += 1;
                Ok(Expr::Literal { value: LiteralValue::Number(token.lexeme) })
            },
            TokenType::Super => {
                self.current += 1;
                let ghost taken = *self;
                let dot = self.consume(TokenType::Dot, "Expect '.' after 'super'.");
                proof {
                    lemma_follows_trans(self, &taken, old(self));
                }
                dot?;
                let ghost dotted = *self;
                let name = self.consume(TokenType::Identifier, "Expect superclass method name.");
                proof {
                    lemma_follows_trans(self, &dotted, old(self));
                }
                let method = name?;
                let ghost named = *self;
                let id = self.fresh_id(self.current - 3);
                proof {
                    lemma_follows_trans(self, &named, old(self));
                }
                Ok(Expr::Super { id, keyword: token, method })
            },
            TokenType::This => {
                self.current += 1;
                let ghost taken = *self;
                let id = self.fresh_id(self.current - 1);
                proof {
                    lemma_follows_trans(self, &taken, old(self));
                }
                Ok(Expr::This { id, keyword: token })
            },
            TokenType::Identifier => {
                self.current += 1;
                let ghost taken = *self;
                let id = self.fresh_id(self.current - 1);
                proof {
                    lemma_follows_trans(self, &taken, old(self));
                }
                Ok(Expr::Variable { id, name: token })
            },
            TokenType::LeftParen => {
                self.current += 1;
                let ghost opened = *self;
                let inner = self.expression();
                proof {
                    lemma_follows_trans(self, &opened, old(self));
                }
                let expr = inner?;
                let ghost parsed = *self;
                let closing = self.consume(TokenType::RightParen, "Expect ')' after expression.");
                proof {
                    lemma_follows_trans(self, &parsed, old(self));
                }
                closing?;
                proof {
                    if self.diagnostics@.len() == old(self).diagnostics@.len() {
                        let c = parsed.current as int;
                        let open = seq![Piece::Kind(TokenType::LeftParen)];
                        let close = seq![Piece::Kind(TokenType::RightParen)];
                        lemma_spelled_one(Piece::Kind(TokenType::LeftParen), tokens, a);
                        lemma_spelled_one(Piece::Kind(TokenType::RightParen), tokens, c);
                        lemma_spelled_join(open, expr_pieces(expr), tokens, a, a + 1, c);
                        lemma_spelled_join(open + expr_pieces(expr), close, tokens, a, c, c + 1);
                    }
                }
                Ok(Expr::Grouping { expression: Box::new(expr) })
            },
            _ => Err(self.error(&token, "Expect expression.")),
        }
    }
}

/// `follows` is transitive.
pub proof fn lemma_follows_trans(last: &Parser, middle: &Parser, first: &Parser)
    requires
        last.follows(middle),
        middle.follows(first),
    ensures
        last.follows(first),
        middle.reports().len() < last.reports().len() || first.reports().len()
            < middle.reports().len() ==> last.failed_after(first),
        middle.position() < last.position() || first.position() < middle.position()
            ==> last.advanced_after(first),
{
    assert(last.reports().subrange(0, first.reports().len() as int) =~= middle.reports().subrange(
        0,
        first.reports().len() as int,
    ));
}

} // verus!
