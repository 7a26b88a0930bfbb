//! Diagnostics and the ways in which running a program can end early.
use vstd::prelude::*;
use vstd::string::*;
use crate::object::Object;
use crate::text::{decimal, decimal_string};
use crate::token::{Token, TokenType, TokenView};

verus! {

/// The line of a diagnostic: `[line N] Error<context>: <message>`.
pub open spec fn diagnostic(line: nat, context: Seq<char>, message: Seq<char>) -> Seq<char> {
    "[line "@ + decimal(line) + "] Error"@ + context + ": "@ + message
}

/// The texts of the diagnostics.
pub open spec fn texts(reports: Seq<String>) -> Seq<Seq<char>> {
    Seq::new(reports.len(), |i: int| reports[i]@)
}

/// Where a diagnostic about `token` points: nowhere for an error token, at
/// the end for the end of input, else at the token's text.
pub open spec fn token_context(token: TokenView) -> Seq<char> {
    if token.tpe == TokenType::EOF {
        " at end"@
    } else if token.tpe == TokenType::Error {
        Seq::empty()
    } else {
        " at '"@ + token.lexeme + "'"@
    }
}

/// The diagnostic for `message` on `line`, with no context.
pub fn error(line: usize, message: &str) -> (r: String)
    ensures
        r@ == diagnostic(line as nat, Seq::empty(), message@),
{
    let r = report(line, "", message);
    proof {
        reveal_strlit("");
        assert(""@ =~= Seq::<char>::empty());
    }
    r
}

/// The diagnostic for `message` on `line`, with the context `where_`.
pub fn report(line: usize, where_: &str, message: &str) -> (r: String)
    ensures
        r@ == diagnostic(line as nat, where_@, message@),
{
    let mut r = String::from_str("[line ");
    let number = decimal_string(line);
    r.append(number.as_str());
    r.append("] Error");
    r.append(where_);
    r.append(": ");
    r.append(message);
    r
}

/// The diagnostic for `message` at `token`.
pub fn parser_error(token: &Token, message: &str) -> (r: String)
    ensures
        r@ == diagnostic(token.line as nat, token_context(token@), message@),
{
    match token.tpe {
        TokenType::EOF => report(token.line, " at end", message),
        TokenType::Error => {
            let r = report(token.line, "", message);
            proof {
                reveal_strlit("");
                assert(""@ =~= Seq::<char>::empty());
            }
            r
        },
        _ => {
            let mut context = String::from_str(" at '");
            context.append(token.lexeme.as_str());
            context.append("'");
            report(token.line, context.as_str(), message)
        },
    }
}

/// How running a program ends early.
pub enum Error {
    /// The source did not parse; the diagnostics say why.
    Parse,
    /// An operation failed while the program ran.
    Runtime { token: Token, message: String },
    /// A `return` statement on its way to the call that it ends. This is
    /// no failure.
    Return { value: Object },
}

} // verus!
