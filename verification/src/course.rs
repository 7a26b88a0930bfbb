//! The course that the parser takes over a sequence of tokens: where it
//! comes to stand, whether it stops, and what it reports on the way.
use vstd::prelude::*;
use crate::error::{diagnostic, token_context};
use crate::parser::{kind_at, recovery_point};
use crate::syntax::operator_level;
use crate::token::{Token, TokenType, TokenView};

verus! {

/// What an expression can be assigned to as.
pub enum Target {
    Variable,
    Property,
    Neither,
}

/// The course of the parser over one construct: the index of the token at
/// which it comes to stand, whether it stops there with a failure, what the
/// expression that it read can be assigned to as, and the diagnostics that
/// it reports on the way, oldest first.
pub struct Course {
    pub pos: int,
    pub stopped: bool,
    pub target: Target,
    pub reports: Seq<Seq<char>>,
}

/// The token at `pos`; behind the last token, an end-of-input token of
/// line zero.
pub open spec fn token_at(tokens: Seq<Token>, pos: int) -> TokenView {
    if 0 <= pos < tokens.len() {
        tokens[pos]@
    } else {
        TokenView { tpe: TokenType::EOF, lexeme: ""@, line: 0 }
    }
}

/// The diagnostic with `message` about `token`. About an error token it
/// has the lexer's own message.
#[verifier::opaque]
pub open spec fn complaint_of(token: TokenView, message: Seq<char>) -> Seq<char> {
    diagnostic(
        token.line,
        token_context(token),
        if token.tpe == TokenType::Error {
            token.lexeme
        } else {
            message
        },
    )
}

/// The diagnostic with `message` about the token at `pos`.
pub open spec fn complaint(tokens: Seq<Token>, pos: int, message: Seq<char>) -> Seq<char> {
    complaint_of(token_at(tokens, pos), message)
}

/// The parser comes to stand at `pos` and has reported nothing.
pub open spec fn went(pos: int, target: Target) -> Course {
    Course { pos, stopped: false, target, reports: Seq::empty() }
}

/// The parser stops at `pos` and reports `message` there.
pub open spec fn stuck(tokens: Seq<Token>, pos: int, message: Seq<char>) -> Course {
    Course {
        pos,
        stopped: true,
        target: Target::Neither,
        reports: seq![complaint(tokens, pos, message)],
    }
}

/// The course `rest` behind what was `reported` before it.
pub open spec fn warned(reported: Seq<Seq<char>>, rest: Course) -> Course {
    Course { reports: reported + rest.reports, ..rest }
}

/// The course `rest` behind the course `first`.
pub open spec fn after(first: Course, rest: Course) -> Course {
    warned(first.reports, rest)
}

/// The two courses are the same.
pub open spec fn agree(a: Course, b: Course) -> bool {
    &&& a.pos == b.pos
    &&& a.stopped == b.stopped
    &&& a.target == b.target
    &&& a.reports =~= b.reports
}

/// The course `c` of something that cannot be assigned to.
pub open spec fn settled(c: Course) -> Course {
    Course { target: Target::Neither, ..c }
}

/// The course `c`, which started at `pos`, has not stopped and has come
/// further.
pub open spec fn goes_on(tokens: Seq<Token>, pos: int, c: Course) -> bool {
    !c.stopped && pos < c.pos <= tokens.len()
}

/// The token at `pos` is of kind `tpe` and is not the end of input.
pub open spec fn stands_at(tokens: Seq<Token>, pos: int, tpe: TokenType) -> bool {
    kind_at(tokens, pos) != TokenType::EOF && kind_at(tokens, pos) == tpe
}

/// The parser steps over the token at `pos` if it is of kind `tpe`, and
/// stops there with `message` if it is not.
pub open spec fn expect(tokens: Seq<Token>, pos: int, tpe: TokenType, message: Seq<char>) -> Course {
    if stands_at(tokens, pos, tpe) {
        went(pos + 1, Target::Neither)
    } else {
        stuck(tokens, pos, message)
    }
}

/// What is reported when the token at index `at` gets its number, the
/// parser standing at `pos`: nothing, unless the number is too large to
/// hold.
pub open spec fn numbering(tokens: Seq<Token>, first: int, at: int, pos: int) -> Seq<Seq<char>> {
    if first + at <= usize::MAX {
        Seq::empty()
    } else {
        seq![complaint(tokens, pos, "Too many names in one program."@)]
    }
}

/// The course over what stands alone.
#[verifier::opaque]
pub open spec fn primary_course(tokens: Seq<Token>, first: int, pos: int) -> Course
    decreases tokens.len() - pos, 8int,
{
    match kind_at(tokens, pos) {
        TokenType::False
        | TokenType::True
        | TokenType::Nil
        | TokenType::String
        | TokenType::Number => went(pos + 1, Target::Neither),
        TokenType::Super => {
            let dot = expect(tokens, pos + 1, TokenType::Dot, "Expect '.' after 'super'."@);
            let name = expect(
                tokens,
                pos + 2,
                TokenType::Identifier,
                "Expect superclass method name."@,
            );
            if dot.stopped {
                dot
            } else if name.stopped {
                name
            } else {
                warned(numbering(tokens, first, pos, pos + 3), went(pos + 3, Target::Neither))
            }
        },
        TokenType::This => warned(
            numbering(tokens, first, pos, pos + 1),
            went(pos + 1, Target::Neither),
        ),
        TokenType::Identifier => warned(
            numbering(tokens, first, pos, pos + 1),
            went(pos + 1, Target::Variable),
        ),
        TokenType::LeftParen => {
            let inner = expression_course(tokens, first, pos + 1);
            if goes_on(tokens, pos, inner) {
                after(
                    inner,
                    expect(
                        tokens,
                        inner.pos,
                        TokenType::RightParen,
                        "Expect ')' after expression."@,
                    ),
                )
            } else {
                inner
            }
        },
        _ => stuck(tokens, pos, "Expect expression."@),
    }
}

/// What `primary_course` is, one step on.
pub proof fn lemma_primary_course(tokens: Seq<Token>, first: int, pos: int)
    ensures
        primary_course(tokens, first, pos) == ({
            match kind_at(tokens, pos) {
                TokenType::False
                | TokenType::True
                | TokenType::Nil
                | TokenType::String
                | TokenType::Number => went(pos + 1, Target::Neither),
                TokenType::Super => {
                    let dot = expect(tokens, pos + 1, TokenType::Dot, "Expect '.' after 'super'."@);
                    let name = expect(
                        tokens,
                        pos + 2,
                        TokenType::Identifier,
                        "Expect superclass method name."@,
                    );
                    if dot.stopped {
                        dot
                    } else if name.stopped {
                        name
                    } else {
                        warned(numbering(tokens, first, pos, pos + 3), went(pos + 3, Target::Neither))
                    }
                },
                TokenType::This => warned(
                    numbering(tokens, first, pos, pos + 1),
                    went(pos + 1, Target::Neither),
                ),
                TokenType::Identifier => warned(
                    numbering(tokens, first, pos, pos + 1),
                    went(pos + 1, Target::Variable),
                ),
                TokenType::LeftParen => {
                    let inner = expression_course(tokens, first, pos + 1);
                    if goes_on(tokens, pos, inner) {
                        after(
                            inner,
                            expect(
                                tokens,
                                inner.pos,
                                TokenType::RightParen,
                                "Expect ')' after expression."@,
                            ),
                        )
                    } else {
                        inner
                    }
                },
                _ => stuck(tokens, pos, "Expect expression."@),
            }
        }),
{
    reveal_with_fuel(primary_course, 1);
    reveal_with_fuel(expression_course, 1);
}

/// The course over the arguments of a call from the argument at `pos` on,
/// `count` arguments having been read. More than 255 arguments are reported,
/// and the parser goes on.
#[verifier::opaque]
pub open spec fn args_course(tokens: Seq<Token>, first: int, pos: int, count: nat) -> Course
    decreases tokens.len() - pos, 33int,
{
    let warning = if count >= 255 {
        seq![complaint(tokens, pos, "Cannot have more than 255 arguments."@)]
    } else {
        Seq::empty()
    };
    let argument = expression_course(tokens, first, pos);
    if goes_on(tokens, pos, argument) && stands_at(tokens, argument.pos, TokenType::Comma) {
        warned(
            warning + argument.reports,
            args_course(tokens, first, argument.pos + 1, count + 1),
        )
    } else {
        warned(warning, settled(argument))
    }
}

/// What `args_course` is, one step on.
pub proof fn lemma_args_course(tokens: Seq<Token>, first: int, pos: int, count: nat)
    ensures
        args_course(tokens, first, pos, count) == ({
            let warning = if count >= 255 {
                seq![complaint(tokens, pos, "Cannot have more than 255 arguments."@)]
            } else {
                Seq::empty()
            };
            let argument = expression_course(tokens, first, pos);
            if goes_on(tokens, pos, argument) && stands_at(tokens, argument.pos, TokenType::Comma) {
                warned(
                    warning + argument.reports,
                    args_course(tokens, first, argument.pos + 1, count + 1),
                )
            } else {
                warned(warning, settled(argument))
            }
        }),
{
    reveal_with_fuel(args_course, 1);
    reveal_with_fuel(expression_course, 1);
}

/// The course over a call behind its opening parenthesis.
#[verifier::opaque]
pub open spec fn finish_call_course(tokens: Seq<Token>, first: int, pos: int) -> Course
    decreases tokens.len() - pos, 34int,
{
    if stands_at(tokens, pos, TokenType::RightParen) {
        went(pos + 1, Target::Neither)
    } else {
        let arguments = args_course(tokens, first, pos, 0);
        if arguments.stopped {
            arguments
        } else {
            after(
                arguments,
                expect(
                    tokens,
                    arguments.pos,
                    TokenType::RightParen,
                    "Expect ')' after arguments."@,
                ),
            )
        }
    }
}

/// What `finish_call_course` is, one step on.
pub proof fn lemma_finish_call_course(tokens: Seq<Token>, first: int, pos: int)
    ensures
        finish_call_course(tokens, first, pos) == ({
            if stands_at(tokens, pos, TokenType::RightParen) {
                went(pos + 1, Target::Neither)
            } else {
                let arguments = args_course(tokens, first, pos, 0);
                if arguments.stopped {
                    arguments
                } else {
                    after(
                        arguments,
                        expect(
                            tokens,
                            arguments.pos,
                            TokenType::RightParen,
                            "Expect ')' after arguments."@,
                        ),
                    )
                }
            }
        }),
{
    reveal_with_fuel(finish_call_course, 1);
    reveal_with_fuel(args_course, 1);
}

/// The course over the calls and properties that follow an expression
/// which ends before `pos` and can be assigned to as `target`.
#[verifier::opaque]
pub open spec fn calls_course(tokens: Seq<Token>, first: int, pos: int, target: Target) -> Course
    decreases tokens.len() - pos, 35int,
{
    if stands_at(tokens, pos, TokenType::LeftParen) {
        let called = finish_call_course(tokens, first, pos + 1);
        if goes_on(tokens, pos, called) {
            after(called, calls_course(tokens, first, called.pos, Target::Neither))
        } else {
            called
        }
    } else if stands_at(tokens, pos, TokenType::Dot) {
        let name = expect(tokens, pos + 1, TokenType::Identifier, "Expect property after '.'."@);
        if name.stopped {
            name
        } else {
            calls_course(tokens, first, pos + 2, Target::Property)
        }
    } else {
        went(pos, target)
    }
}

/// What `calls_course` is, one step on.
pub proof fn lemma_calls_course(tokens: Seq<Token>, first: int, pos: int, target: Target)
    ensures
        calls_course(tokens, first, pos, target) == ({
            if stands_at(tokens, pos, TokenType::LeftParen) {
                let called = finish_call_course(tokens, first, pos + 1);
                if goes_on(tokens, pos, called) {
                    after(called, calls_course(tokens, first, called.pos, Target::Neither))
                } else {
                    called
                }
            } else if stands_at(tokens, pos, TokenType::Dot) {
                let name = expect(tokens, pos + 1, TokenType::Identifier, "Expect property after '.'."@);
                if name.stopped {
                    name
                } else {
                    calls_course(tokens, first, pos + 2, Target::Property)
                }
            } else {
                went(pos, target)
            }
        }),
{
    reveal_with_fuel(calls_course, 1);
    reveal_with_fuel(finish_call_course, 1);
}

/// The course over what stands alone and the calls and properties behind
/// it.
#[verifier::opaque]
pub open spec fn call_course(tokens: Seq<Token>, first: int, pos: int) -> Course
    decreases tokens.len() - pos, 9int,
{
    let alone = primary_course(tokens, first, pos);
    if goes_on(tokens, pos, alone) {
        after(alone, calls_course(tokens, first, alone.pos, alone.target))
    } else {
        alone
    }
}

/// What `call_course` is, one step on.
pub proof fn lemma_call_course(tokens: Seq<Token>, first: int, pos: int)
    ensures
        call_course(tokens, first, pos) == ({
            let alone = primary_course(tokens, first, pos);
            if goes_on(tokens, pos, alone) {
                after(alone, calls_course(tokens, first, alone.pos, alone.target))
            } else {
                alone
            }
        }),
{
    reveal_with_fuel(call_course, 1);
    reveal_with_fuel(primary_course, 1);
    reveal_with_fuel(calls_course, 1);
}

/// The course over the unary operators and what they apply to.
#[verifier::opaque]
pub open spec fn unary_course(tokens: Seq<Token>, first: int, pos: int) -> Course
    decreases tokens.len() - pos, 10int,
{
    if stands_at(tokens, pos, TokenType::Bang) || stands_at(tokens, pos, TokenType::Minus) {
        settled(unary_course(tokens, first, pos + 1))
    } else {
        call_course(tokens, first, pos)
    }
}

/// What `unary_course` is, one step on.
pub proof fn lemma_unary_course(tokens: Seq<Token>, first: int, pos: int)
    ensures
        unary_course(tokens, first, pos) == ({
            if stands_at(tokens, pos, TokenType::Bang) || stands_at(tokens, pos, TokenType::Minus) {
                settled(unary_course(tokens, first, pos + 1))
            } else {
                call_course(tokens, first, pos)
            }
        }),
{
    reveal_with_fuel(unary_course, 1);
    reveal_with_fuel(call_course, 1);
}

/// The course over the operators of `level` and their right operands,
/// which follow an operand that ends before `pos` and can be assigned to as
/// `target`.
#[verifier::opaque]
pub open spec fn more_course(
    tokens: Seq<Token>,
    first: int,
    pos: int,
    level: nat,
    target: Target,
) -> Course
    decreases tokens.len() - pos, 36int,
{
    if 2 <= level <= 7 && kind_at(tokens, pos) != TokenType::EOF && operator_level(
        kind_at(tokens, pos),
    ) == level {
        let operand = level_course(tokens, first, pos + 1, level + 1);
        if goes_on(tokens, pos, operand) {
            after(operand, more_course(tokens, first, operand.pos, level, Target::Neither))
        } else {
            operand
        }
    } else {
        went(pos, target)
    }
}

/// What `more_course` is, one step on.
pub proof fn lemma_more_course(tokens: Seq<Token>, first: int, pos: int, level: nat, target: Target)
    ensures
        more_course(tokens, first, pos, level, target) == ({
            if 2 <= level <= 7 && kind_at(tokens, pos) != TokenType::EOF && operator_level(
                kind_at(tokens, pos),
            ) == level {
                let operand = level_course(tokens, first, pos + 1, level + 1);
                if goes_on(tokens, pos, operand) {
                    after(operand, more_course(tokens, first, operand.pos, level, Target::Neither))
                } else {
                    operand
                }
            } else {
                went(pos, target)
            }
        }),
{
    reveal_with_fuel(more_course, 1);
    reveal_with_fuel(level_course, 1);
}

/// The course over an expression of the operators of `level` and of what
/// binds more tightly: `or` is of level 2, `and` 3, equality 4, comparison 5,
/// sums 6, products 7, and the unary operators 8.
#[verifier::opaque]
pub open spec fn level_course(tokens: Seq<Token>, first: int, pos: int, level: nat) -> Course
    decreases tokens.len() - pos, (if level >= 8 {
        11int
    } else {
        20 - level
    }),
{
    if level >= 8 {
        unary_course(tokens, first, pos)
    } else {
        let operand = level_course(tokens, first, pos, level + 1);
        if goes_on(tokens, pos, operand) {
            after(operand, more_course(tokens, first, operand.pos, level, operand.target))
        } else {
            operand
        }
    }
}

/// What `level_course` is, one step on.
pub proof fn lemma_level_course(tokens: Seq<Token>, first: int, pos: int, level: nat)
    ensures
        level_course(tokens, first, pos, level) == ({
            if level >= 8 {
                unary_course(tokens, first, pos)
            } else {
                let operand = level_course(tokens, first, pos, level + 1);
                if goes_on(tokens, pos, operand) {
                    after(operand, more_course(tokens, first, operand.pos, level, operand.target))
                } else {
                    operand
                }
            }
        }),
{
    reveal_with_fuel(level_course, 1);
    reveal_with_fuel(unary_course, 1);
    reveal_with_fuel(more_course, 1);
}

/// The course over an assignment or what binds more tightly. A target
/// that is neither a variable nor a property is reported at the `=`, and the
/// parser goes on.
#[verifier::opaque]
pub open spec fn assignment_course(tokens: Seq<Token>, first: int, pos: int) -> Course
    decreases tokens.len() - pos, 19int,
{
    let left = level_course(tokens, first, pos, 2);
    if goes_on(tokens, pos, left) && stands_at(tokens, left.pos, TokenType::Equal) {
        let value = assignment_course(tokens, first, left.pos + 1);
        if value.stopped {
            after(left, value)
        } else {
            Course {
                pos: value.pos,
                stopped: false,
                target: Target::Neither,
                reports: left.reports + value.reports + (if left.target is Neither {
                    seq![complaint(tokens, left.pos, "Invalid assignment target."@)]
                } else {
                    Seq::empty()
                }),
            }
        }
    } else {
        left
    }
}

/// What `assignment_course` is, one step on.
pub proof fn lemma_assignment_course(tokens: Seq<Token>, first: int, pos: int)
    ensures
        assignment_course(tokens, first, pos) == ({
            let left = level_course(tokens, first, pos, 2);
            if goes_on(tokens, pos, left) && stands_at(tokens, left.pos, TokenType::Equal) {
                let value = assignment_course(tokens, first, left.pos + 1);
                if value.stopped {
                    after(left, value)
                } else {
                    Course {
                        pos: value.pos,
                        stopped: false,
                        target: Target::Neither,
                        reports: left.reports + value.reports + (if left.target is Neither {
                            seq![complaint(tokens, left.pos, "Invalid assignment target."@)]
                        } else {
                            Seq::empty()
                        }),
                    }
                }
            } else {
                left
            }
        }),
{
    reveal_with_fuel(assignment_course, 1);
    reveal_with_fuel(level_course, 1);
}

/// The course over an expression.
#[verifier::opaque]
pub open spec fn expression_course(tokens: Seq<Token>, first: int, pos: int) -> Course
    decreases tokens.len() - pos, 20int,
{
    assignment_course(tokens, first, pos)
}

/// What `expression_course` is, one step on.
pub proof fn lemma_expression_course(tokens: Seq<Token>, first: int, pos: int)
    ensures
        expression_course(tokens, first, pos) == ({
            assignment_course(tokens, first, pos)
        }),
{
    reveal_with_fuel(expression_course, 1);
    reveal_with_fuel(assignment_course, 1);
}

/// The course over an expression and the semicolon that ends its
/// statement; `message` is reported where the semicolon is missing.
#[verifier::opaque]
pub open spec fn ended_course(tokens: Seq<Token>, first: int, pos: int, message: Seq<char>) -> Course
    decreases tokens.len() - pos, 36int,
{
    let value = expression_course(tokens, first, pos);
    if goes_on(tokens, pos, value) {
        after(value, expect(tokens, value.pos, TokenType::Semicolon, message))
    } else {
        value
    }
}

/// What `ended_course` is, one step on.
pub proof fn lemma_ended_course(tokens: Seq<Token>, first: int, pos: int, message: Seq<char>)
    ensures
        ended_course(tokens, first, pos, message) == ({
            let value = expression_course(tokens, first, pos);
            if goes_on(tokens, pos, value) {
                after(value, expect(tokens, value.pos, TokenType::Semicolon, message))
            } else {
                value
            }
        }),
{
    reveal_with_fuel(ended_course, 1);
    reveal_with_fuel(expression_course, 1);
}

/// The course over a `return` statement behind its keyword.
#[verifier::opaque]
pub open spec fn return_course(tokens: Seq<Token>, first: int, pos: int) -> Course
    decreases tokens.len() - pos, 37int,
{
    if stands_at(tokens, pos, TokenType::Semicolon) {
        went(pos + 1, Target::Neither)
    } else {
        ended_course(tokens, first, pos, "Expect ';' after return value."@)
    }
}

/// What `return_course` is, one step on.
pub proof fn lemma_return_course(tokens: Seq<Token>, first: int, pos: int)
    ensures
        return_course(tokens, first, pos) == ({
            if stands_at(tokens, pos, TokenType::Semicolon) {
                went(pos + 1, Target::Neither)
            } else {
                ended_course(tokens, first, pos, "Expect ';' after return value."@)
            }
        }),
{
    reveal_with_fuel(return_course, 1);
    reveal_with_fuel(ended_course, 1);
}

/// The course over a variable declaration behind its keyword.
#[verifier::opaque]
pub open spec fn var_course(tokens: Seq<Token>, first: int, pos: int) -> Course
    decreases tokens.len() - pos, 37int,
{
    let name = expect(tokens, pos, TokenType::Identifier, "Expect variable name."@);
    if name.stopped {
        name
    } else if stands_at(tokens, pos + 1, TokenType::Equal) {
        ended_course(tokens, first, pos + 2, "Expect ';' after variable declaration."@)
    } else {
        expect(tokens, pos + 1, TokenType::Semicolon, "Expect ';' after variable declaration."@)
    }
}

/// What `var_course` is, one step on.
pub proof fn lemma_var_course(tokens: Seq<Token>, first: int, pos: int)
    ensures
        var_course(tokens, first, pos) == ({
            let name = expect(tokens, pos, TokenType::Identifier, "Expect variable name."@);
            if name.stopped {
                name
            } else if stands_at(tokens, pos + 1, TokenType::Equal) {
                ended_course(tokens, first, pos + 2, "Expect ';' after variable declaration."@)
            } else {
                expect(tokens, pos + 1, TokenType::Semicolon, "Expect ';' after variable declaration."@)
            }
        }),
{
    reveal_with_fuel(var_course, 1);
    reveal_with_fuel(ended_course, 1);
}

/// The course over an expression in parentheses, as it follows `if` and
/// `while`.
#[verifier::opaque]
pub open spec fn condition_course(
    tokens: Seq<Token>,
    first: int,
    pos: int,
    before_it: Seq<char>,
    after_it: Seq<char>,
) -> Course
    decreases tokens.len() - pos, 37int,
{
    let open = expect(tokens, pos, TokenType::LeftParen, before_it);
    if open.stopped {
        open
    } else {
        let tested = expression_course(tokens, first, pos + 1);
        if goes_on(tokens, pos, tested) {
            after(tested, expect(tokens, tested.pos, TokenType::RightParen, after_it))
        } else {
            tested
        }
    }
}

/// What `condition_course` is, one step on.
pub proof fn lemma_condition_course(tokens: Seq<Token>, first: int, pos: int, before_it: Seq<char>, after_it: Seq<char>)
    ensures
        condition_course(tokens, first, pos, before_it, after_it) == ({
            let open = expect(tokens, pos, TokenType::LeftParen, before_it);
            if open.stopped {
                open
            } else {
                let tested = expression_course(tokens, first, pos + 1);
                if goes_on(tokens, pos, tested) {
                    after(tested, expect(tokens, tested.pos, TokenType::RightParen, after_it))
                } else {
                    tested
                }
            }
        }),
{
    reveal_with_fuel(condition_course, 1);
    reveal_with_fuel(expression_course, 1);
}

/// The course over a `while` statement behind its keyword.
#[verifier::opaque]
pub open spec fn while_course(tokens: Seq<Token>, first: int, pos: int) -> Course
    decreases tokens.len() - pos, 38int,
{
    let tested = condition_course(
        tokens,
        first,
        pos,
        "Expect '(' after 'while'."@,
        "Expect ')' after condition."@,
    );
    if goes_on(tokens, pos, tested) {
        after(tested, statement_course(tokens, first, tested.pos))
    } else {
        tested
    }
}

/// What `while_course` is, one step on.
pub proof fn lemma_while_course(tokens: Seq<Token>, first: int, pos: int)
    ensures
        while_course(tokens, first, pos) == ({
            let tested = condition_course(
                tokens,
                first,
                pos,
                "Expect '(' after 'while'."@,
                "Expect ')' after condition."@,
            );
            if goes_on(tokens, pos, tested) {
                after(tested, statement_course(tokens, first, tested.pos))
            } else {
                tested
            }
        }),
{
    reveal_with_fuel(while_course, 1);
    reveal_with_fuel(condition_course, 1);
    reveal_with_fuel(statement_course, 1);
}

/// The course over the `else` branch of an `if` statement, if one
/// follows.
#[verifier::opaque]
pub open spec fn else_course(tokens: Seq<Token>, first: int, pos: int) -> Course
    decreases tokens.len() - pos, 38int,
{
    if stands_at(tokens, pos, TokenType::Else) {
        statement_course(tokens, first, pos + 1)
    } else {
        went(pos, Target::Neither)
    }
}

/// What `else_course` is, one step on.
pub proof fn lemma_else_course(tokens: Seq<Token>, first: int, pos: int)
    ensures
        else_course(tokens, first, pos) == ({
            if stands_at(tokens, pos, TokenType::Else) {
                statement_course(tokens, first, pos + 1)
            } else {
                went(pos, Target::Neither)
            }
        }),
{
    reveal_with_fuel(else_course, 1);
    reveal_with_fuel(statement_course, 1);
}

/// The course over an `if` statement behind its keyword.
#[verifier::opaque]
pub open spec fn if_course(tokens: Seq<Token>, first: int, pos: int) -> Course
    decreases tokens.len() - pos, 38int,
{
    let tested = condition_course(
        tokens,
        first,
        pos,
        "Expect '(' after 'if'."@,
        "Expect ')' after if condition."@,
    );
    if goes_on(tokens, pos, tested) {
        let taken = statement_course(tokens, first, tested.pos);
        if goes_on(tokens, pos, taken) {
            after(tested, after(taken, else_course(tokens, first, taken.pos)))
        } else {
            after(tested, taken)
        }
    } else {
        tested
    }
}

/// What `if_course` is, one step on.
pub proof fn lemma_if_course(tokens: Seq<Token>, first: int, pos: int)
    ensures
        if_course(tokens, first, pos) == ({
            let tested = condition_course(
                tokens,
                first,
                pos,
                "Expect '(' after 'if'."@,
                "Expect ')' after if condition."@,
            );
            if goes_on(tokens, pos, tested) {
                let taken = statement_course(tokens, first, tested.pos);
                if goes_on(tokens, pos, taken) {
                    after(tested, after(taken, else_course(tokens, first, taken.pos)))
                } else {
                    after(tested, taken)
                }
            } else {
                tested
            }
        }),
{
    reveal_with_fuel(if_course, 1);
    reveal_with_fuel(condition_course, 1);
    reveal_with_fuel(else_course, 1);
    reveal_with_fuel(statement_course, 1);
}

/// The course over the clauses of a `for` statement behind its
/// initializer: the condition if there is one, a semicolon, the increment if
/// there is one, and the closing parenthesis.
#[verifier::opaque]
pub open spec fn clauses_course(tokens: Seq<Token>, first: int, pos: int) -> Course
    decreases tokens.len() - pos, 38int,
{
    let tested = if stands_at(tokens, pos, TokenType::Semicolon) {
        went(pos, Target::Neither)
    } else {
        expression_course(tokens, first, pos)
    };
    let semicolon = expect(
        tokens,
        tested.pos,
        TokenType::Semicolon,
        "Expect ';' after loop condition."@,
    );
    if tested.stopped || tested.pos < pos {
        tested
    } else if semicolon.stopped {
        after(tested, semicolon)
    } else {
        let stepped = if stands_at(tokens, tested.pos + 1, TokenType::RightParen) {
            went(tested.pos + 1, Target::Neither)
        } else {
            expression_course(tokens, first, tested.pos + 1)
        };
        if stepped.stopped || stepped.pos <= tested.pos {
            after(tested, stepped)
        } else {
            after(
                tested,
                after(
                    stepped,
                    expect(
                        tokens,
                        stepped.pos,
                        TokenType::RightParen,
                        "Expect ')' after for clauses."@,
                    ),
                ),
            )
        }
    }
}

/// What `clauses_course` is, one step on.
pub proof fn lemma_clauses_course(tokens: Seq<Token>, first: int, pos: int)
    ensures
        clauses_course(tokens, first, pos) == ({
            let tested = if stands_at(tokens, pos, TokenType::Semicolon) {
                went(pos, Target::Neither)
            } else {
                expression_course(tokens, first, pos)
            };
            let semicolon = expect(
                tokens,
                tested.pos,
                TokenType::Semicolon,
                "Expect ';' after loop condition."@,
            );
            if tested.stopped || tested.pos < pos {
                tested
            } else if semicolon.stopped {
                after(tested, semicolon)
            } else {
                let stepped = if stands_at(tokens, tested.pos + 1, TokenType::RightParen) {
                    went(tested.pos + 1, Target::Neither)
                } else {
                    expression_course(tokens, first, tested.pos + 1)
                };
                if stepped.stopped || stepped.pos <= tested.pos {
                    after(tested, stepped)
                } else {
                    after(
                        tested,
                        after(
                            stepped,
                            expect(
                                tokens,
                                stepped.pos,
                                TokenType::RightParen,
                                "Expect ')' after for clauses."@,
                            ),
                        ),
                    )
                }
            }
        }),
{
    reveal_with_fuel(clauses_course, 1);
    reveal_with_fuel(expression_course, 1);
}

/// The course over a `for` statement behind its keyword.
#[verifier::opaque]
pub open spec fn for_course(tokens: Seq<Token>, first: int, pos: int) -> Course
    decreases tokens.len() - pos, 39int,
{
    let open = expect(tokens, pos, TokenType::LeftParen, "Expect '(' after 'for'."@);
    if open.stopped {
        open
    } else {
        let initializer = if stands_at(tokens, pos + 1, TokenType::Semicolon) {
            went(pos + 2, Target::Neither)
        } else if stands_at(tokens, pos + 1, TokenType::Var) {
            var_course(tokens, first, pos + 2)
        } else {
            ended_course(tokens, first, pos + 1, "Expect ';' after expression."@)
        };
        if goes_on(tokens, pos, initializer) {
            let clauses = clauses_course(tokens, first, initializer.pos);
            if goes_on(tokens, pos, clauses) {
                after(initializer, after(clauses, statement_course(tokens, first, clauses.pos)))
            } else {
                after(initializer, clauses)
            }
        } else {
            initializer
        }
    }
}

/// What `for_course` is, one step on.
pub proof fn lemma_for_course(tokens: Seq<Token>, first: int, pos: int)
    ensures
        for_course(tokens, first, pos) == ({
            let open = expect(tokens, pos, TokenType::LeftParen, "Expect '(' after 'for'."@);
            if open.stopped {
                open
            } else {
                let initializer = if stands_at(tokens, pos + 1, TokenType::Semicolon) {
                    went(pos + 2, Target::Neither)
                } else if stands_at(tokens, pos + 1, TokenType::Var) {
                    var_course(tokens, first, pos + 2)
                } else {
                    ended_course(tokens, first, pos + 1, "Expect ';' after expression."@)
                };
                if goes_on(tokens, pos, initializer) {
                    let clauses = clauses_course(tokens, first, initializer.pos);
                    if goes_on(tokens, pos, clauses) {
                        after(
                            initializer,
                            after(clauses, statement_course(tokens, first, clauses.pos)),
                        )
                    } else {
                        after(initializer, clauses)
                    }
                } else {
                    initializer
                }
            }
        }),
{
    reveal_with_fuel(for_course, 1);
    reveal_with_fuel(var_course, 1);
    reveal_with_fuel(ended_course, 1);
    reveal_with_fuel(clauses_course, 1);
    reveal_with_fuel(statement_course, 1);
}

/// The course over the declarations of a block behind its opening brace,
/// and over its closing brace.
#[verifier::opaque]
pub open spec fn block_course(tokens: Seq<Token>, first: int, pos: int) -> Course
    decreases tokens.len() - pos, 49int,
{
    if stands_at(tokens, pos, TokenType::RightBrace) || kind_at(tokens, pos) == TokenType::EOF {
        expect(tokens, pos, TokenType::RightBrace, "Expect '}' after block."@)
    } else {
        let declared = declaration_course(tokens, first, pos);
        if goes_on(tokens, pos, declared) {
            after(declared, block_course(tokens, first, declared.pos))
        } else {
            declared
        }
    }
}

/// What `block_course` is, one step on.
pub proof fn lemma_block_course(tokens: Seq<Token>, first: int, pos: int)
    ensures
        block_course(tokens, first, pos) == ({
            if stands_at(tokens, pos, TokenType::RightBrace) || kind_at(tokens, pos) == TokenType::EOF {
                expect(tokens, pos, TokenType::RightBrace, "Expect '}' after block."@)
            } else {
                let declared = declaration_course(tokens, first, pos);
                if goes_on(tokens, pos, declared) {
                    after(declared, block_course(tokens, first, declared.pos))
                } else {
                    declared
                }
            }
        }),
{
    reveal_with_fuel(block_course, 1);
    reveal_with_fuel(declaration_course, 1);
}

/// The course over the parameters of a function from the parameter at
/// `pos` on, `count` parameters having been read. More than 255 parameters
/// are reported, and the parser goes on.
#[verifier::opaque]
pub open spec fn params_course(tokens: Seq<Token>, pos: int, count: nat) -> Course
    decreases tokens.len() - pos,
{
    let warning = if count >= 255 {
        seq![complaint(tokens, pos, "Cannot have more than 255 parameters."@)]
    } else {
        Seq::empty()
    };
    let name = expect(tokens, pos, TokenType::Identifier, "Expect parameter name."@);
    if !name.stopped && stands_at(tokens, pos + 1, TokenType::Comma) {
        warned(warning, params_course(tokens, pos + 2, count + 1))
    } else {
        warned(warning, name)
    }
}

/// What `params_course` is, one step on.
pub proof fn lemma_params_course(tokens: Seq<Token>, pos: int, count: nat)
    ensures
        params_course(tokens, pos, count) == ({
            let warning = if count >= 255 {
                seq![complaint(tokens, pos, "Cannot have more than 255 parameters."@)]
            } else {
                Seq::empty()
            };
            let name = expect(tokens, pos, TokenType::Identifier, "Expect parameter name."@);
            if !name.stopped && stands_at(tokens, pos + 1, TokenType::Comma) {
                warned(warning, params_course(tokens, pos + 2, count + 1))
            } else {
                warned(warning, name)
            }
        }),
{
    reveal_with_fuel(params_course, 1);
}

/// The course over a function or a method from its name on. `kind` words
/// the diagnostics.
#[verifier::opaque]
pub open spec fn function_course(tokens: Seq<Token>, first: int, pos: int, kind: Seq<char>) -> Course
    decreases tokens.len() - pos, 40int,
{
    let name = expect(tokens, pos, TokenType::Identifier, "Expect "@ + kind + " name."@);
    let open = expect(
        tokens,
        pos + 1,
        TokenType::LeftParen,
        "Expect '(' after "@ + kind + " name."@,
    );
    let params = if stands_at(tokens, pos + 2, TokenType::RightParen) {
        went(pos + 2, Target::Neither)
    } else {
        params_course(tokens, pos + 2, 0)
    };
    let closing = expect(
        tokens,
        params.pos,
        TokenType::RightParen,
        "Expect ')' after parameters."@,
    );
    let brace = expect(
        tokens,
        params.pos + 1,
        TokenType::LeftBrace,
        "Expect '{' before "@ + kind + " body."@,
    );
    if name.stopped {
        name
    } else if open.stopped {
        open
    } else if params.stopped || params.pos < pos {
        params
    } else if closing.stopped {
        after(params, closing)
    } else if brace.stopped {
        after(params, brace)
    } else {
        after(params, block_course(tokens, first, params.pos + 2))
    }
}

/// What `function_course` is, one step on.
pub proof fn lemma_function_course(tokens: Seq<Token>, first: int, pos: int, kind: Seq<char>)
    ensures
        function_course(tokens, first, pos, kind) == ({
            let name = expect(tokens, pos, TokenType::Identifier, "Expect "@ + kind + " name."@);
            let open = expect(
                tokens,
                pos + 1,
                TokenType::LeftParen,
                "Expect '(' after "@ + kind + " name."@,
            );
            let params = if stands_at(tokens, pos + 2, TokenType::RightParen) {
                went(pos + 2, Target::Neither)
            } else {
                params_course(tokens, pos + 2, 0)
            };
            let closing = expect(
                tokens,
                params.pos,
                TokenType::RightParen,
                "Expect ')' after parameters."@,
            );
            let brace = expect(
                tokens,
                params.pos + 1,
                TokenType::LeftBrace,
                "Expect '{' before "@ + kind + " body."@,
            );
            if name.stopped {
                name
            } else if open.stopped {
                open
            } else if params.stopped || params.pos < pos {
                params
            } else if closing.stopped {
                after(params, closing)
            } else if brace.stopped {
                after(params, brace)
            } else {
                after(params, block_course(tokens, first, params.pos + 2))
            }
        }),
{
    reveal_with_fuel(function_course, 1);
    reveal_with_fuel(block_course, 1);
    reveal_with_fuel(params_course, 1);
}

/// The course over the methods of a class from the method at `pos` on.
#[verifier::opaque]
pub open spec fn methods_course(tokens: Seq<Token>, first: int, pos: int) -> Course
    decreases tokens.len() - pos, 48int,
{
    if stands_at(tokens, pos, TokenType::RightBrace) || kind_at(tokens, pos) == TokenType::EOF {
        went(pos, Target::Neither)
    } else {
        let method = function_course(tokens, first, pos, "method"@);
        if goes_on(tokens, pos, method) {
            after(method, methods_course(tokens, first, method.pos))
        } else {
            method
        }
    }
}

/// What `methods_course` is, one step on.
pub proof fn lemma_methods_course(tokens: Seq<Token>, first: int, pos: int)
    ensures
        methods_course(tokens, first, pos) == ({
            if stands_at(tokens, pos, TokenType::RightBrace) || kind_at(tokens, pos) == TokenType::EOF {
                went(pos, Target::Neither)
            } else {
                let method = function_course(tokens, first, pos, "method"@);
                if goes_on(tokens, pos, method) {
                    after(method, methods_course(tokens, first, method.pos))
                } else {
                    method
                }
            }
        }),
{
    reveal_with_fuel(methods_course, 1);
    reveal_with_fuel(function_course, 1);
}

/// The course over the superclass that a class names behind its own
/// name, if it names one.
pub open spec fn superclass_course(tokens: Seq<Token>, first: int, pos: int) -> Course {
    let parent = expect(tokens, pos + 1, TokenType::Identifier, "Expect superclass name."@);
    if !stands_at(tokens, pos, TokenType::Less) {
        went(pos, Target::Neither)
    } else if parent.stopped {
        parent
    } else {
        warned(numbering(tokens, first, pos + 1, pos + 2), went(pos + 2, Target::Neither))
    }
}

/// The course over a class behind its keyword.
#[verifier::opaque]
pub open spec fn class_course(tokens: Seq<Token>, first: int, pos: int) -> Course
    decreases tokens.len() - pos, 42int,
{
    let name = expect(tokens, pos, TokenType::Identifier, "Expect class name."@);
    let head = superclass_course(tokens, first, pos + 1);
    let brace = expect(tokens, head.pos, TokenType::LeftBrace, "Expect '{' before class body."@);
    if name.stopped {
        name
    } else if head.stopped {
        head
    } else if brace.stopped {
        after(head, brace)
    } else {
        let methods = methods_course(tokens, first, head.pos + 1);
        if methods.stopped {
            after(head, methods)
        } else {
            after(
                head,
                after(
                    methods,
                    expect(
                        tokens,
                        methods.pos,
                        TokenType::RightBrace,
                        "Expect '}' after class body."@,
                    ),
                ),
            )
        }
    }
}

/// What `class_course` is, one step on.
pub proof fn lemma_class_course(tokens: Seq<Token>, first: int, pos: int)
    ensures
        class_course(tokens, first, pos) == ({
            let name = expect(tokens, pos, TokenType::Identifier, "Expect class name."@);
            let head = superclass_course(tokens, first, pos + 1);
            let brace = expect(tokens, head.pos, TokenType::LeftBrace, "Expect '{' before class body."@);
            if name.stopped {
                name
            } else if head.stopped {
                head
            } else if brace.stopped {
                after(head, brace)
            } else {
                let methods = methods_course(tokens, first, head.pos + 1);
                if methods.stopped {
                    after(head, methods)
                } else {
                    after(
                        head,
                        after(
                            methods,
                            expect(
                                tokens,
                                methods.pos,
                                TokenType::RightBrace,
                                "Expect '}' after class body."@,
                            ),
                        ),
                    )
                }
            }
        }),
{
    reveal_with_fuel(class_course, 1);
    reveal_with_fuel(methods_course, 1);
}

/// The course over one statement.
#[verifier::opaque]
pub open spec fn statement_course(tokens: Seq<Token>, first: int, pos: int) -> Course
    decreases tokens.len() - pos, 46int,
{
    match kind_at(tokens, pos) {
        TokenType::For => for_course(tokens, first, pos + 1),
        TokenType::If => if_course(tokens, first, pos + 1),
        TokenType::Print => ended_course(tokens, first, pos + 1, "Expect ';' after value."@),
        TokenType::Return => return_course(tokens, first, pos + 1),
        TokenType::While => while_course(tokens, first, pos + 1),
        TokenType::LeftBrace => block_course(tokens, first, pos + 1),
        _ => ended_course(tokens, first, pos, "Expect ';' after expression."@),
    }
}

/// What `statement_course` is, one step on.
pub proof fn lemma_statement_course(tokens: Seq<Token>, first: int, pos: int)
    ensures
        statement_course(tokens, first, pos) == ({
            match kind_at(tokens, pos) {
                TokenType::For => for_course(tokens, first, pos + 1),
                TokenType::If => if_course(tokens, first, pos + 1),
                TokenType::Print => ended_course(tokens, first, pos + 1, "Expect ';' after value."@),
                TokenType::Return => return_course(tokens, first, pos + 1),
                TokenType::While => while_course(tokens, first, pos + 1),
                TokenType::LeftBrace => block_course(tokens, first, pos + 1),
                _ => ended_course(tokens, first, pos, "Expect ';' after expression."@),
            }
        }),
{
    reveal_with_fuel(statement_course, 1);
    reveal_with_fuel(ended_course, 1);
    reveal_with_fuel(return_course, 1);
    reveal_with_fuel(while_course, 1);
    reveal_with_fuel(if_course, 1);
    reveal_with_fuel(for_course, 1);
    reveal_with_fuel(block_course, 1);
}

/// The course over one declaration. Where the declaration does not parse
/// the parser does not stop: it goes on to the next statement boundary.
#[verifier::opaque]
pub open spec fn declaration_course(tokens: Seq<Token>, first: int, pos: int) -> Course
    decreases tokens.len() - pos, 47int,
{
    let read = match kind_at(tokens, pos) {
        TokenType::Var => var_course(tokens, first, pos + 1),
        TokenType::Class => class_course(tokens, first, pos + 1),
        TokenType::Fun => function_course(tokens, first, pos + 1, "function"@),
        _ => statement_course(tokens, first, pos),
    };
    if read.stopped {
        Course {
            pos: if kind_at(tokens, read.pos) == TokenType::EOF {
                read.pos
            } else {
                recovery_point(tokens, read.pos + 1)
            },
            stopped: false,
            target: Target::Neither,
            reports: read.reports,
        }
    } else {
        read
    }
}

/// What `declaration_course` is, one step on.
pub proof fn lemma_declaration_course(tokens: Seq<Token>, first: int, pos: int)
    ensures
        declaration_course(tokens, first, pos) == ({
            let read = match kind_at(tokens, pos) {
                TokenType::Var => var_course(tokens, first, pos + 1),
                TokenType::Class => class_course(tokens, first, pos + 1),
                TokenType::Fun => function_course(tokens, first, pos + 1, "function"@),
                _ => statement_course(tokens, first, pos),
            };
            if read.stopped {
                Course {
                    pos: if kind_at(tokens, read.pos) == TokenType::EOF {
                        read.pos
                    } else {
                        recovery_point(tokens, read.pos + 1)
                    },
                    stopped: false,
                    target: Target::Neither,
                    reports: read.reports,
                }
            } else {
                read
            }
        }),
{
    reveal_with_fuel(declaration_course, 1);
    reveal_with_fuel(var_course, 1);
    reveal_with_fuel(function_course, 1);
    reveal_with_fuel(class_course, 1);
    reveal_with_fuel(statement_course, 1);
}

/// The course over a whole program, up to the end of input.
#[verifier::opaque]
pub open spec fn program_course(tokens: Seq<Token>, first: int, pos: int) -> Course
    decreases tokens.len() - pos, 50int,
{
    if kind_at(tokens, pos) == TokenType::EOF {
        went(pos, Target::Neither)
    } else {
        let declared = declaration_course(tokens, first, pos);
        if goes_on(tokens, pos, declared) {
            after(declared, program_course(tokens, first, declared.pos))
        } else {
            declared
        }
    }
}

/// What `program_course` is, one step on.
pub proof fn lemma_program_course(tokens: Seq<Token>, first: int, pos: int)
    ensures
        program_course(tokens, first, pos) == ({
            if kind_at(tokens, pos) == TokenType::EOF {
                went(pos, Target::Neither)
            } else {
                let declared = declaration_course(tokens, first, pos);
                if goes_on(tokens, pos, declared) {
                    after(declared, program_course(tokens, first, declared.pos))
                } else {
                    declared
                }
            }
        }),
{
    reveal_with_fuel(program_course, 1);
    reveal_with_fuel(declaration_course, 1);
}

} // verus!
