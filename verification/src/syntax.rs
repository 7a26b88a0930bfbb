//! The syntax tree, and a printer that shows an expression's structure.
use vstd::prelude::*;
use vstd::string::*;
use std::rc::Rc;
use crate::error::Error;
use crate::token::{Token, TokenType};

verus! {

/// A literal. A number is kept as its numeral.
pub enum LiteralValue {
    Boolean(bool),
    Null,
    Number(String),
    String(String),
}

/// An expression. An expression that names a variable, `this` or `super`
/// carries a number of its own, by which the resolver tells it from every
/// other.
#[allow(inconsistent_fields)]
pub enum Expr {
    Assign { id: usize, name: Token, value: Box<Expr> },
    Binary { left: Box<Expr>, operator: Token, right: Box<Expr> },
    Call { callee: Box<Expr>, paren: Token, arguments: Vec<Expr> },
    Get { object: Box<Expr>, name: Token },
    Grouping { expression: Box<Expr> },
    Literal { value: LiteralValue },
    Logical { left: Box<Expr>, operator: Token, right: Box<Expr> },
    SetProperty { object: Box<Expr>, name: Token, value: Box<Expr> },
    Super { id: usize, keyword: Token, method: Token },
    This { id: usize, keyword: Token },
    Unary { operator: Token, right: Box<Expr> },
    Variable { id: usize, name: Token },
}

/// A function as it was declared: its name, its parameters and its body.
pub struct FunctionDeclaration {
    pub name: Token,
    pub params: Vec<Token>,
    pub body: Vec<Stmt>,
}

/// A statement. `Null` stands where a declaration did not parse. A function
/// declaration is shared between the tree and the functions made from it.
#[allow(inconsistent_fields)]
pub enum Stmt {
    Block { statements: Vec<Stmt> },
    Class { name: Token, superclass: Option<Expr>, methods: Vec<Rc<FunctionDeclaration>> },
    Expression { expression: Expr },
    Function { declaration: Rc<FunctionDeclaration> },
    If { condition: Expr, else_branch: Box<Option<Stmt>>, then_branch: Box<Stmt> },
    Print { expression: Expr },
    Return { keyword: Token, value: Option<Expr> },
    Var { name: Token, initializer: Option<Expr> },
    While { condition: Expr, body: Box<Stmt> },
    Null,
}

impl LiteralValue {
    /// The text that shows the literal.
    pub open spec fn shown(self) -> Seq<char> {
        match self {
            LiteralValue::Boolean(b) => if b {
                "true"@
            } else {
                "false"@
            },
            LiteralValue::Null => "null"@,
            LiteralValue::Number(n) => n@,
            LiteralValue::String(s) => s@,
        }
    }

    pub fn to_string(&self) -> (r: String)
        ensures
            r@ == self.shown(),
    {
        match self {
            LiteralValue::Boolean(b) => if *b {
                String::from_str("true")
            } else {
                String::from_str("false")
            },
            LiteralValue::Null => String::from_str("null"),
            LiteralValue::Number(n) => n.clone(),
            LiteralValue::String(s) => s.clone(),
        }
    }
}

/// The level at which a binary or logical operator binds; zero for a token
/// that is no such operator.
pub open spec fn operator_level(tpe: TokenType) -> nat {
    match tpe {
        TokenType::Or => 2,
        TokenType::And => 3,
        TokenType::BangEqual | TokenType::EqualEqual => 4,
        TokenType::Greater | TokenType::GreaterEqual | TokenType::Less | TokenType::LessEqual => 5,
        TokenType::Minus | TokenType::Plus => 6,
        TokenType::Slash | TokenType::Star => 7,
        _ => 0,
    }
}

/// How tightly the outermost construct of an expression binds: an
/// assignment least, then `or`, `and`, equality, comparison, sum, product,
/// the unary operators, calls and properties, and most tightly what stands
/// alone.
pub open spec fn binds(e: Expr) -> nat {
    match e {
        Expr::Assign { .. } | Expr::SetProperty { .. } => 1,
        Expr::Logical { operator, .. } => operator_level(operator.tpe),
        Expr::Binary { operator, .. } => operator_level(operator.tpe),
        Expr::Unary { .. } => 8,
        Expr::Call { .. } | Expr::Get { .. } => 9,
        _ => 10,
    }
}

/// The tree stands as the grammar groups it, and each token in it is of the
/// kind that belongs in its place. Under an operator the left operand binds
/// at least as tightly as the operator and the right operand more tightly,
/// so that operators of one level group to the left; the operand of a unary
/// operator and the target of a call or a property bind no less tightly
/// than these do. What needs other grouping stands in a `Grouping`.
pub open spec fn well_formed(e: Expr) -> bool
    decreases e,
{
    match e {
        Expr::Assign { name, value, .. } => name.tpe == TokenType::Identifier && well_formed(
            *value,
        ),
        Expr::Binary { left, operator, right } => {
            &&& 4 <= operator_level(operator.tpe)
            &&& well_formed(*left)
            &&& well_formed(*right)
            &&& binds(*left) >= operator_level(operator.tpe)
            &&& binds(*right) > operator_level(operator.tpe)
        },
        Expr::Call { callee, paren, arguments } => {
            &&& paren.tpe == TokenType::RightParen
            &&& arguments@.len() <= 255
            &&& well_formed(*callee)
            &&& binds(*callee) >= 9
            &&& forall|i: int| 0 <= i < arguments@.len() ==> well_formed(#[trigger] arguments@[i])
        },
        Expr::Get { object, name } => name.tpe == TokenType::Identifier && well_formed(*object)
            && binds(*object) >= 9,
        Expr::Grouping { expression } => well_formed(*expression),
        Expr::Literal { .. } => true,
        Expr::Logical { left, operator, right } => {
            &&& (operator.tpe == TokenType::Or || operator.tpe == TokenType::And)
            &&& well_formed(*left)
            &&& well_formed(*right)
            &&& binds(*left) >= operator_level(operator.tpe)
            &&& binds(*right) > operator_level(operator.tpe)
        },
        Expr::SetProperty { object, name, value } => name.tpe == TokenType::Identifier
            && well_formed(*object) && binds(*object) >= 9 && well_formed(*value),
        Expr::Super { keyword, method, .. } => keyword.tpe == TokenType::Super && method.tpe
            == TokenType::Identifier,
        Expr::This { keyword, .. } => keyword.tpe == TokenType::This,
        Expr::Unary { operator, right } => {
            &&& (operator.tpe == TokenType::Bang || operator.tpe == TokenType::Minus)
            &&& well_formed(*right)
            &&& binds(*right) >= 8
        },
        Expr::Variable { name, .. } => name.tpe == TokenType::Identifier,
    }
}

/// The tokens of a program, and the number that stands for its first
/// token: the token at index `i` has the number `first + i`.
pub struct Source {
    pub tokens: Seq<Token>,
    pub first: int,
}

/// A function stands as the grammar has it: its name and its parameters
/// are identifiers, it has no more than 255 parameters, and its body is
/// sound.
pub open spec fn function_sound(declaration: FunctionDeclaration) -> bool
    decreases declaration,
{
    &&& declaration.name.tpe == TokenType::Identifier
    &&& declaration.params@.len() <= 255
    &&& forall|i: int|
        0 <= i < declaration.params@.len() ==> (#[trigger] declaration.params@[i]).tpe
            == TokenType::Identifier
    &&& forall|i: int|
        0 <= i < declaration.body@.len() ==> stmt_sound(#[trigger] declaration.body@[i])
}

/// A statement stands as the grammar has it: its expressions are well
/// formed, its names are identifiers, a superclass is named by a variable,
/// and what it holds is sound. `Stmt::Null`, which stands where a
/// declaration did not parse, is not.
pub open spec fn stmt_sound(s: Stmt) -> bool
    decreases s,
{
    match s {
        Stmt::Block { statements } => forall|i: int|
            0 <= i < statements@.len() ==> stmt_sound(#[trigger] statements@[i]),
        Stmt::Class { name, superclass, methods } => {
            &&& name.tpe == TokenType::Identifier
            &&& match superclass {
                Some(Expr::Variable { name: parent, .. }) => parent.tpe == TokenType::Identifier,
                Some(_) => false,
                None => true,
            }
            &&& forall|i: int|
                0 <= i < methods@.len() ==> function_sound(*#[trigger] methods@[i])
        },
        Stmt::Expression { expression } => well_formed(expression),
        Stmt::Function { declaration } => function_sound(*declaration),
        Stmt::If { condition, else_branch, then_branch } => {
            &&& well_formed(condition)
            &&& stmt_sound(*then_branch)
            &&& match *else_branch {
                Some(other) => stmt_sound(other),
                None => true,
            }
        },
        Stmt::Print { expression } => well_formed(expression),
        Stmt::Return { keyword, value } => keyword.tpe == TokenType::Return && (match value {
            Some(v) => well_formed(v),
            None => true,
        }),
        Stmt::Var { name, initializer } => name.tpe == TokenType::Identifier && (
        match initializer {
            Some(i) => well_formed(i),
            None => true,
        }),
        Stmt::While { condition, body } => well_formed(condition) && stmt_sound(*body),
        Stmt::Null => false,
    }
}

/// What a tree keeps of one token: the token itself, or its kind alone, or
/// its kind and its text, or the token and its number.
pub enum Piece {
    Kept(Token),
    Kind(TokenType),
    Text(TokenType, Seq<char>),
    Numbered(Token, usize),
}

/// Whether `token`, which has the number `number`, is the token that
/// `piece` was kept of.
pub open spec fn fits(piece: Piece, token: Token, number: int) -> bool {
    match piece {
        Piece::Kept(kept) => kept == token,
        Piece::Kind(tpe) => token.tpe == tpe,
        Piece::Text(tpe, text) => token.tpe == tpe && token.lexeme@ == text,
        Piece::Numbered(kept, id) => kept == token && id == number,
    }
}

/// What a literal keeps of its token.
pub open spec fn literal_piece(value: LiteralValue) -> Piece {
    match value {
        LiteralValue::Boolean(b) => Piece::Kind(
            if b {
                TokenType::True
            } else {
                TokenType::False
            },
        ),
        LiteralValue::Null => Piece::Kind(TokenType::Nil),
        LiteralValue::Number(n) => Piece::Text(TokenType::Number, n@),
        LiteralValue::String(s) => Piece::Text(TokenType::String, s@),
    }
}

/// What the first `n` of the arguments keep of their tokens, with the
/// commas between them.
pub open spec fn args_pieces(arguments: Seq<Expr>, n: nat) -> Seq<Piece>
    decreases arguments, n,
{
    if n == 0 || n > arguments.len() {
        Seq::empty()
    } else if n == 1 {
        expr_pieces(arguments[0])
    } else {
        args_pieces(arguments, (n - 1) as nat) + seq![Piece::Kind(TokenType::Comma)] + expr_pieces(
            arguments[n - 1],
        )
    }
}

/// What an expression keeps of the tokens that it is written as, token by
/// token in their order.
pub open spec fn expr_pieces(e: Expr) -> Seq<Piece>
    decreases e,
{
    match e {
        Expr::Assign { id, name, value } => seq![
            Piece::Numbered(name, id),
            Piece::Kind(TokenType::Equal),
        ] + expr_pieces(*value),
        Expr::Binary { left, operator, right } => expr_pieces(*left) + seq![Piece::Kept(operator)]
            + expr_pieces(*right),
        Expr::Call { callee, paren, arguments } => expr_pieces(*callee) + seq![
            Piece::Kind(TokenType::LeftParen),
        ] + args_pieces(arguments@, arguments@.len()) + seq![Piece::Kept(paren)],
        Expr::Get { object, name } => expr_pieces(*object) + seq![
            Piece::Kind(TokenType::Dot),
            Piece::Kept(name),
        ],
        Expr::Grouping { expression } => seq![Piece::Kind(TokenType::LeftParen)] + expr_pieces(
            *expression,
        ) + seq![Piece::Kind(TokenType::RightParen)],
        Expr::Literal { value } => seq![literal_piece(value)],
        Expr::Logical { left, operator, right } => expr_pieces(*left) + seq![
            Piece::Kept(operator),
        ] + expr_pieces(*right),
        Expr::SetProperty { object, name, value } => expr_pieces(*object) + seq![
            Piece::Kind(TokenType::Dot),
            Piece::Kept(name),
            Piece::Kind(TokenType::Equal),
        ] + expr_pieces(*value),
        Expr::Super { id, keyword, method } => seq![
            Piece::Numbered(keyword, id),
            Piece::Kind(TokenType::Dot),
            Piece::Kept(method),
        ],
        Expr::This { id, keyword } => seq![Piece::Numbered(keyword, id)],
        Expr::Unary { operator, right } => seq![Piece::Kept(operator)] + expr_pieces(*right),
        Expr::Variable { id, name } => seq![Piece::Numbered(name, id)],
    }
}

/// The declaration that is shared.
pub open spec fn shared(declaration: Rc<FunctionDeclaration>) -> FunctionDeclaration {
    *declaration
}

/// What the first `n` parameters keep of their tokens, with the commas
/// between them.
pub open spec fn params_pieces(params: Seq<Token>, n: nat) -> Seq<Piece>
    decreases n,
{
    if n == 0 || n > params.len() {
        Seq::empty()
    } else if n == 1 {
        seq![Piece::Kept(params[0])]
    } else {
        params_pieces(params, (n - 1) as nat) + seq![
            Piece::Kind(TokenType::Comma),
            Piece::Kept(params[n - 1]),
        ]
    }
}

/// What a class keeps of the tokens that name its superclass.
pub open spec fn superclass_pieces(superclass: Option<Expr>) -> Seq<Piece> {
    match superclass {
        Some(Expr::Variable { id, name }) => seq![
            Piece::Kind(TokenType::Less),
            Piece::Numbered(name, id),
        ],
        _ => Seq::empty(),
    }
}

/// What a statement that holds no other statement keeps of the tokens that
/// it is written as, token by token in their order.
pub open spec fn simple_pieces(s: Stmt) -> Seq<Piece> {
    match s {
        Stmt::Expression { expression } => expr_pieces(expression) + seq![
            Piece::Kind(TokenType::Semicolon),
        ],
        Stmt::Print { expression } => seq![Piece::Kind(TokenType::Print)] + expr_pieces(expression)
            + seq![Piece::Kind(TokenType::Semicolon)],
        Stmt::Return { keyword, value } => seq![Piece::Kept(keyword)] + (match value {
            Some(v) => expr_pieces(v),
            None => Seq::empty(),
        }) + seq![Piece::Kind(TokenType::Semicolon)],
        Stmt::Var { name, initializer } => seq![Piece::Kind(TokenType::Var), Piece::Kept(name)] + (
        match initializer {
            Some(i) => seq![Piece::Kind(TokenType::Equal)] + expr_pieces(i),
            None => Seq::empty(),
        }) + seq![Piece::Kind(TokenType::Semicolon)],
        _ => Seq::empty(),
    }
}

/// What an `if` or a `while` statement keeps of its tokens up to the
/// statement behind its condition: the keyword and the condition in
/// parentheses.
pub open spec fn test_pieces(keyword: TokenType, condition: Expr) -> Seq<Piece> {
    seq![Piece::Kind(keyword), Piece::Kind(TokenType::LeftParen)] + expr_pieces(condition) + seq![
        Piece::Kind(TokenType::RightParen),
    ]
}

/// What a function keeps of its tokens up to its body: its name, its
/// parameters in parentheses, and the opening brace.
pub open spec fn function_head(declaration: FunctionDeclaration) -> Seq<Piece> {
    seq![Piece::Kept(declaration.name), Piece::Kind(TokenType::LeftParen)] + params_pieces(
        declaration.params@,
        declaration.params@.len(),
    ) + seq![Piece::Kind(TokenType::RightParen), Piece::Kind(TokenType::LeftBrace)]
}

/// What a class keeps of its tokens up to its methods: the keyword, its
/// name, its superclass if it names one, and the opening brace.
pub open spec fn class_head(name: Token, superclass: Option<Expr>) -> Seq<Piece> {
    seq![Piece::Kind(TokenType::Class), Piece::Kept(name)] + superclass_pieces(superclass) + seq![
        Piece::Kind(TokenType::LeftBrace),
    ]
}

/// What the clauses of a `for` statement keep of its tokens: the condition
/// if there is one, a semicolon, the increment if there is one, and the
/// closing parenthesis.
pub open spec fn clause_pieces(condition: Option<Expr>, increment: Option<Expr>) -> Seq<Piece> {
    (match condition {
        Some(c) => expr_pieces(c),
        None => Seq::empty(),
    }) + seq![Piece::Kind(TokenType::Semicolon)] + (match increment {
        Some(i) => expr_pieces(i),
        None => Seq::empty(),
    }) + seq![Piece::Kind(TokenType::RightParen)]
}

/// What the parts of a `for` statement keep of its tokens up to its body:
/// the keyword and the parenthesis, the initializer with its semicolon or
/// the semicolon alone, and the clauses.
pub open spec fn for_head(
    initializer: Option<Stmt>,
    condition: Option<Expr>,
    increment: Option<Expr>,
) -> Seq<Piece> {
    seq![Piece::Kind(TokenType::For), Piece::Kind(TokenType::LeftParen)] + (match initializer {
        Some(i) => simple_pieces(i),
        None => seq![Piece::Kind(TokenType::Semicolon)],
    }) + clause_pieces(condition, increment)
}

/// Two pieces with numbers that the tokens spell at different places have
/// different numbers: every expression that names a variable has a number of
/// its own.
pub proof fn lemma_numbers_differ(pieces: Seq<Piece>, source: Source, from: int, to: int, i: int, j: int)
    requires
        spelled(pieces, source, from, to),
        0 <= i < pieces.len(),
        0 <= j < pieces.len(),
        i != j,
        pieces[i] is Numbered,
        pieces[j] is Numbered,
    ensures
        pieces[i]->Numbered_1 != pieces[j]->Numbered_1,
{
    reveal(fitted);
}

/// The parameters that two sequences share keep the same pieces.
pub proof fn lemma_params_pieces_shared(a: Seq<Token>, b: Seq<Token>, n: nat)
    requires
        n <= a.len(),
        n <= b.len(),
        forall|i: int| 0 <= i < n ==> a[i] == b[i],
    ensures
        params_pieces(a, n) == params_pieces(b, n),
    decreases n,
{
    if n > 1 {
        lemma_params_pieces_shared(a, b, (n - 1) as nat);
    }
}

/// The tokens from `from` up to `to` are those that the pieces were kept
/// of, one for one, and a piece with a number has the number of its token.
pub open spec fn spelled(pieces: Seq<Piece>, source: Source, from: int, to: int) -> bool {
    &&& 0 <= from <= to <= source.tokens.len()
    &&& pieces.len() == to - from
    &&& fitted(pieces, source, from)
}

/// Each piece fits the token at its place from `from` on, and a piece with
/// a number has the number of its token.
#[verifier::opaque]
pub open spec fn fitted(pieces: Seq<Piece>, source: Source, from: int) -> bool {
    forall|i: int|
        0 <= i < pieces.len() ==> fits(
            #[trigger] pieces[i],
            source.tokens[from + i],
            source.first + from + i,
        )
}

/// Pieces spelled by the tokens up to `mid`, then pieces spelled by the
/// tokens from `mid`, are spelled by all those tokens.
pub proof fn lemma_spelled_join(
    first: Seq<Piece>,
    second: Seq<Piece>,
    source: Source,
    from: int,
    mid: int,
    to: int,
)
    requires
        spelled(first, source, from, mid),
        spelled(second, source, mid, to),
    ensures
        spelled(first + second, source, from, to),
{
    reveal(fitted);
    let all = first + second;
    assert forall|i: int| 0 <= i < all.len() implies fits(
        #[trigger] all[i],
        source.tokens[from + i],
        source.first + from + i,
    ) by {
        if i < first.len() {
            assert(all[i] == first[i]);
        } else {
            assert(all[i] == second[i - first.len()]);
            assert(from + i == mid + (i - first.len()));
        }
    }
}

/// Pieces spelled by the tokens up to `to`, then a piece that fits the token
/// at `to`, are spelled by the tokens up to and with that one.
pub proof fn lemma_spelled_push(
    pieces: Seq<Piece>,
    piece: Piece,
    source: Source,
    from: int,
    to: int,
)
    requires
        spelled(pieces, source, from, to),
        to < source.tokens.len(),
        fits(piece, source.tokens[to], source.first + to),
    ensures
        spelled(pieces + seq![piece], source, from, to + 1),
{
    lemma_spelled_one(piece, source, to);
    lemma_spelled_join(pieces, seq![piece], source, from, to, to + 1);
}

/// No pieces are spelled by no tokens.
pub proof fn lemma_spelled_none(source: Source, at: int)
    requires
        0 <= at <= source.tokens.len(),
    ensures
        spelled(Seq::empty(), source, at, at),
{
    reveal(fitted);
}

/// One piece is spelled by the token that fits it.
pub proof fn lemma_spelled_one(piece: Piece, source: Source, at: int)
    requires
        0 <= at < source.tokens.len(),
        fits(piece, source.tokens[at], source.first + at),
    ensures
        spelled(seq![piece], source, at, at + 1),
{
    reveal(fitted);
}

/// The arguments that two sequences share keep the same pieces.
pub proof fn lemma_args_pieces_shared(a: Seq<Expr>, b: Seq<Expr>, n: nat)
    requires
        n <= a.len(),
        n <= b.len(),
        forall|i: int| 0 <= i < n ==> a[i] == b[i],
    ensures
        args_pieces(a, n) == args_pieces(b, n),
    decreases n,
{
    if n > 1 {
        lemma_args_pieces_shared(a, b, (n - 1) as nat);
    }
}

/// `(name e1 e2 ...)`, each `e` as `printed` shows it.
pub open spec fn parenthesized(name: Seq<char>, shown: Seq<char>) -> Seq<char> {
    "("@ + name + shown + ")"@
}

/// The expressions of `exprs` from `from` on, each after a space.
pub open spec fn printed_list(exprs: Seq<Expr>, from: int) -> Seq<char>
    decreases exprs, exprs.len() - from,
{
    if 0 <= from < exprs.len() {
        " "@ + printed(exprs[from]) + printed_list(exprs, from + 1)
    } else {
        Seq::empty()
    }
}

/// The structure of an expression in prefix form: an operator with its
/// operands in parentheses, a name or a literal as it stands.
pub open spec fn printed(expr: Expr) -> Seq<char>
    decreases expr,
{
    match expr {
        Expr::Assign { name, value, .. } => parenthesized(name.lexeme@, " "@ + printed(*value)),
        Expr::Binary { left, operator, right } => parenthesized(
            operator.lexeme@,
            " "@ + printed(*left) + " "@ + printed(*right),
        ),
        Expr::Call { callee, arguments, .. } => parenthesized(
            "call"@,
            " "@ + printed(*callee) + printed_list(arguments@, 0),
        ),
        Expr::Get { object, name } => parenthesized(
            "get"@,
            " "@ + printed(*object) + " "@ + name.lexeme@,
        ),
        Expr::Grouping { expression } => parenthesized("group"@, " "@ + printed(*expression)),
        Expr::Literal { value } => value.shown(),
        Expr::Logical { left, operator, right } => parenthesized(
            operator.lexeme@,
            " "@ + printed(*left) + " "@ + printed(*right),
        ),
        Expr::SetProperty { object, name, value } => parenthesized(
            "set"@,
            " "@ + printed(*object) + " "@ + name.lexeme@ + " "@ + printed(*value),
        ),
        Expr::Super { method, .. } => parenthesized("super"@, " "@ + method.lexeme@),
        Expr::This { .. } => "this"@,
        Expr::Unary { operator, right } => parenthesized(operator.lexeme@, " "@ + printed(*right)),
        Expr::Variable { name, .. } => name.lexeme@,
    }
}

/// Shows the structure of expressions.
pub struct AstPrinter;

impl AstPrinter {
    pub fn print(&mut self, expr: Expr) -> (r: Result<String, Error>)
        ensures
            r matches Ok(s) && s@ == printed(expr),
    {
        Ok(self.show(&expr))
    }

    fn parenthesize(&self, name: &str, shown: &str) -> (r: String)
        ensures
            r@ == parenthesized(name@, shown@),
    {
        let mut r = String::from_str("(");
        r.append(name);
        r.append(shown);
        r.append(")");
        r
    }

    fn show_list(&self, exprs: &Vec<Expr>) -> (r: String)
        ensures
            r@ == printed_list(exprs@, 0),
        decreases exprs@, 0int,
    {
        let mut shown: Vec<String> = Vec::new();
        let mut i: usize = 0;
        while i < exprs.len()
            invariant
                i <= exprs.len(),
                shown.len() == i,
                forall|j: int| 0 <= j < i ==> (#[trigger] shown[j])@ == printed(exprs[j]),
            decreases exprs.len() - i,
        {
            shown.push(self.show(&exprs[i]));
            i += 1;
        }
        let mut r = String::new();
        let mut k: usize = exprs.len();
        assert(r@ =~= printed_list(exprs@, k as int));
        while k > 0
            invariant
                k <= exprs.len(),
                shown.len() == exprs.len(),
                forall|j: int| 0 <= j < exprs.len() ==> (#[trigger] shown[j])@ == printed(exprs[j]),
                r@ == printed_list(exprs@, k as int),
            decreases k,
        {
            k -= 1;
            let mut piece = String::from_str(" ");
            piece.append(shown[k].as_str());
            piece.append(r.as_str());
            r = piece;
        }
        r
    }

    fn show(&self, expr: &Expr) -> (r: String)
        ensures
            r@ == printed(*expr),
        decreases *expr, 1int,
    {
        match expr {
            Expr::Assign { name, value, .. } => {
                let mut inner = String::from_str(" ");
                inner.append(self.show(value).as_str());
                self.parenthesize(name.lexeme.as_str(), inner.as_str())
            },
            Expr::Binary { left, operator, right } => {
                let mut inner = String::from_str(" ");
                inner.append(self.show(left).as_str());
                inner.append(" ");
                inner.append(self.show(right).as_str());
                self.parenthesize(operator.lexeme.as_str(), inner.as_str())
            },
            Expr::Call { callee, arguments, .. } => {
                let mut inner = String::from_str(" ");
                inner.append(self.show(callee).as_str());
                inner.append(self.show_list(arguments).as_str());
                self.parenthesize("call", inner.as_str())
            },
            Expr::Get { object, name } => {
                let mut inner = String::from_str(" ");
                inner.append(self.show(object).as_str());
                inner.append(" ");
                inner.append(name.lexeme.as_str());
                self.parenthesize("get", inner.as_str())
            },
            Expr::Grouping { expression } => {
                let mut inner = String::from_str(" ");
                inner.append(self.show(expression).as_str());
                self.parenthesize("group", inner.as_str())
            },
            Expr::Literal { value } => value.to_string(),
            Expr::Logical { left, operator, right } => {
                let mut inner = String::from_str(" ");
                inner.append(self.show(left).as_str());
                inner.append(" ");
                inner.append(self.show(right).as_str());
                self.parenthesize(operator.lexeme.as_str(), inner.as_str())
            },
            Expr::SetProperty { object, name, value } => {
                let mut inner = String::from_str(" ");
                inner.append(self.show(object).as_str());
                inner.append(" ");
                inner.append(name.lexeme.as_str());
                inner.append(" ");
                inner.append(self.show(value).as_str());
                self.parenthesize("set", inner.as_str())
            },
            Expr::Super { method, .. } => {
                let mut inner = String::from_str(" ");
                inner.append(method.lexeme.as_str());
                self.parenthesize("super", inner.as_str())
            },
            Expr::This { .. } => String::from_str("this"),
            Expr::Unary { operator, right } => {
                let mut inner = String::from_str(" ");
                inner.append(self.show(right).as_str());
                self.parenthesize(operator.lexeme.as_str(), inner.as_str())
            },
            Expr::Variable { name, .. } => name.lexeme.clone(),
        }
    }
}

} // verus!
