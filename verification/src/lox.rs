//! One program after another through the lexer, the parser, the resolver and
//! the evaluator, and the exit code of each way in which that can end.
use vstd::prelude::*;
use crate::compiler::views;
use crate::course::program_course;
use crate::error::{texts, Error};
use crate::host::Host;
use crate::interpreter::{runs, Interpreter};
use crate::parser::{kind_at, list_says, Parser};
use crate::resolver::{stmts_resolution, ClassType, FunctionType, Resolution, Resolver};
use crate::scanner::{tokens_from, Scanner};
use crate::syntax::{stmt_sound, Source, Stmt};
use crate::token::{Token, TokenType};
use crate::vm::InterpretResult;

verus! {

/// The exit code for a usage error.
pub const EXIT_USAGE: i32 = 64;

/// The exit code for a source that does not lex, parse or resolve.
pub const EXIT_DATA: i32 = 65;

/// The exit code for a runtime error.
pub const EXIT_SOFTWARE: i32 = 70;

/// The exit code for the way in which a run ended: 0 for success, 65 for a
/// source that did not parse or resolve, 70 for a runtime error. A `return`
/// that reached the top is no error in the program's run.
pub fn exit_code(result: &Result<(), Error>) -> (r: i32)
    ensures
        r == (match *result {
            Ok(_) => 0i32,
            Err(Error::Parse) => EXIT_DATA,
            Err(Error::Runtime { .. }) => EXIT_SOFTWARE,
            Err(Error::Return { .. }) => 0i32,
        }),
{
    match result {
        Ok(_) => 0,
        Err(Error::Parse) => EXIT_DATA,
        Err(Error::Runtime { .. }) => EXIT_SOFTWARE,
        Err(Error::Return { .. }) => 0,
    }
}

/// The exit code for the way in which the stack machine ended.
pub fn vm_exit_code(result: InterpretResult) -> (r: i32)
    ensures
        r == (match result {
            InterpretResult::Success => 0i32,
            InterpretResult::CompileError => EXIT_DATA,
            InterpretResult::RuntimeError => EXIT_SOFTWARE,
        }),
{
    match result {
        InterpretResult::Success => 0,
        InterpretResult::CompileError => EXIT_DATA,
        InterpretResult::RuntimeError => EXIT_SOFTWARE,
    }
}

/// `source` was run: its tokens are `tokens`; the parser reports nothing
/// on them, and the statements are sound and
/// are what the tokens up to the end of input say; resolving the statements
/// at the top level gave the evaluator the distances that `resolved` holds
/// and found no error; and running the statements took the evaluator from
/// `resolved` to `after` and ended as `r`. `first` is the number of the
/// first token.
pub open spec fn is_run<H: Host>(
    host: &H,
    source: Seq<char>,
    first: int,
    before: Interpreter,
    tokens: Seq<Token>,
    statements: Seq<Stmt>,
    resolved: Interpreter,
    after: Interpreter,
    r: Result<(), Error>,
) -> bool {
    let end = tokens.len() - 1;
    let top = Resolution { scopes: Seq::empty(), table: before.distances(), failed: false, reports: Seq::empty() };
    &&& views(tokens) =~= tokens_from(source, 0)
    &&& tokens.len() >= 1
    &&& program_course(tokens, first, 0).reports.len() == 0
    &&& forall|i: int| 0 <= i < statements.len() ==> stmt_sound(#[trigger] statements[i])
    &&& list_says(statements, Source { tokens, first }, 0, end)
    &&& resolved.same_run(&before)
    &&& stmts_resolution(
        top,
        FunctionType::Outside,
        ClassType::Outside,
        statements,
        statements.len(),
    ) == (Resolution { scopes: Seq::empty(), table: resolved.distances(), failed: false, reports: Seq::empty() })
    &&& runs(host, resolved, statements, statements.len(), after, r)
}

/// `source` was refused with the diagnostics `reported`: its tokens are
/// `tokens`, and `reported` is what the parser reports on them; or the
/// parser reports nothing, the statements are what the tokens say, and
/// `reported` is what the resolver reports on them at the top level. Either
/// way something is reported. `first` is the number of the first token.
pub open spec fn is_refused(
    source: Seq<char>,
    first: int,
    before: Interpreter,
    tokens: Seq<Token>,
    statements: Seq<Stmt>,
    reported: Seq<Seq<char>>,
) -> bool {
    let end = tokens.len() - 1;
    let top = Resolution {
        scopes: Seq::empty(),
        table: before.distances(),
        failed: false,
        reports: Seq::empty(),
    };
    let read = program_course(tokens, first, 0);
    &&& views(tokens) =~= tokens_from(source, 0)
    &&& tokens.len() >= 1
    &&& reported.len() > 0
    &&& if read.reports.len() > 0 {
        reported =~= read.reports
    } else {
        &&& forall|i: int| 0 <= i < statements.len() ==> stmt_sound(#[trigger] statements[i])
        &&& list_says(statements, Source { tokens, first }, 0, end)
        &&& reported =~= stmts_resolution(
            top,
            FunctionType::Outside,
            ClassType::Outside,
            statements,
            statements.len(),
        ).reports
    }
}

/// The language with its tree-walking evaluator: the evaluator's state lives
/// from one program to the next, as in an interactive session.
pub struct Lox {
    interpreter: Interpreter,
    next_id: usize,
    diagnostics: Vec<String>,
}

impl Lox {
    /// The evaluator.
    pub closed spec fn evaluator(&self) -> Interpreter {
        self.interpreter
    }

    /// The diagnostics reported and not yet taken.
    pub closed spec fn reports(&self) -> Seq<String> {
        self.diagnostics@
    }

    /// The number that stands for the first token of the next source.
    pub closed spec fn numbering(&self) -> int {
        self.next_id as int
    }

    pub closed spec fn wf(&self) -> bool {
        self.interpreter.wf()
    }

    pub fn new() -> (r: Self)
        ensures
            r.wf(),
            r.reports().len() == 0,
            r.evaluator().printed().len() == 0,
    {
        Lox { interpreter: Interpreter::new(), next_id: 0, diagnostics: Vec::new() }
    }

    /// Hands out the lines printed since the last call.
    pub fn take_output(&mut self) -> (r: Vec<String>)
        requires
            old(self).wf(),
        ensures
            final(self).wf(),
            r@ == old(self).evaluator().printed(),
            final(self).evaluator().printed().len() == 0,
            final(self).reports() == old(self).reports(),
    {
        self.interpreter.take_output()
    }

    /// Hands out the diagnostics reported since the last call.
    pub fn take_diagnostics(&mut self) -> (r: Vec<String>)
        requires
            old(self).wf(),
        ensures
            final(self).wf(),
            r@ == old(self).reports(),
            final(self).reports().len() == 0,
            final(self).evaluator() == old(self).evaluator(),
    {
        let mut taken: Vec<String> = Vec::new();
        std::mem::swap(&mut taken, &mut self.diagnostics);
        taken
    }

    /// Sets the number of evaluation steps that are left.
    pub fn set_budget(&mut self, steps: u64)
        requires
            old(self).wf(),
        ensures
            final(self).wf(),
            final(self).evaluator().budget() == steps,
            final(self).reports() == old(self).reports(),
    {
        self.interpreter.set_budget(steps);
    }

    fn report_all(&mut self, reports: &Vec<String>)
        ensures
            final(self).interpreter == old(self).interpreter,
            final(self).next_id == old(self).next_id,
            final(self).diagnostics@.len() == old(self).diagnostics@.len() + reports@.len(),
            texts(final(self).diagnostics@) =~= texts(old(self).diagnostics@) + texts(reports@),
    {
        let mut i: usize = 0;
        while i < reports.len()
            invariant
                i <= reports.len(),
                texts(self.diagnostics@) =~= texts(old(self).diagnostics@) + texts(
                    reports@.take(i as int),
                ),
                self.interpreter == old(self).interpreter,
                self.next_id == old(self).next_id,
                self.diagnostics@.len() == old(self).diagnostics@.len() + i,
            decreases reports.len() - i,
        {
            let ghost kept = self.diagnostics@;
            let report = reports[i].clone();
            self.diagnostics.push(report);
            i += 1;
            proof {
                assert(report@ == reports@[i - 1]@);
                assert(reports@.take(i as int) =~= reports@.take(i - 1).push(reports@[i - 1]));
                assert(texts(self.diagnostics@) =~= texts(kept).push(report@));
                assert(texts(reports@.take(i as int)) =~= texts(reports@.take(i - 1)).push(
                    report@,
                ));
            }
        }
        proof {
            assert(reports@.take(i as int) =~= reports@);
        }
    }

    /// Runs `source`. A source that does not parse or does not resolve is
    /// not run: its diagnostics are reported, and the result is
    /// `Error::Parse` with the evaluator as it was, but for the distances.
    /// Otherwise the source is run, and the result is that of the evaluator.
    pub fn run<H: Host>(&mut self, source: &str, host: &H) -> (r: Result<(), Error>)
        requires
            old(self).wf(),
        ensures
            final(self).wf(),
            old(self).reports().len() <= final(self).reports().len(),
            r matches Err(Error::Parse) <==> old(self).reports().len() < final(self).reports().len(),
            r matches Err(Error::Parse) ==> final(self).evaluator().same_run(
                &old(self).evaluator(),
            ),
            texts(final(self).reports()).take(old(self).reports().len() as int) =~= texts(
                old(self).reports(),
            ),
            r matches Err(Error::Parse) ==> exists|tokens: Seq<Token>, statements: Seq<Stmt>| #[trigger]
                is_refused(
                    source@,
                    old(self).numbering(),
                    old(self).evaluator(),
                    tokens,
                    statements,
                    texts(final(self).reports()).skip(old(self).reports().len() as int),
                ),
            !(r matches Err(Error::Parse)) ==> final(self).evaluator().current() == old(self).evaluator().current(),
            !(r matches Err(Error::Parse)) ==> exists|
                tokens: Seq<Token>,
                statements: Seq<Stmt>,
                resolved: Interpreter,
            | #[trigger]
                is_run(
                    host,
                    source@,
                    old(self).numbering(),
                    old(self).evaluator(),
                    tokens,
                    statements,
                    resolved,
                    final(self).evaluator(),
                    r,
                ),
    {
        let mut scanner = Scanner::new(source);
        let tokens = scanner.scan_tokens();
        proof {
            crate::scanner::lemma_tokens_end(source@, 0);
            assert(views(tokens@) =~= tokens.deep_view());
        }
        let mut parser = Parser::with_first_id(&tokens, self.next_id);
        let ghost fresh = parser;
        let parsed = parser.parse();
        let ghost end = parser.position();
        let ghost first = self.next_id as int;
        let ghost read = program_course(tokens@, first, 0);
        proof {
            assert(texts(fresh.reports()) =~= Seq::empty());
            assert(texts(parser.reports()) =~= read.reports);
        }
        self.next_id = parser.next_id();
        if parser.had_error() {
            self.report_all(parser.diagnostics());
            proof {
                let reported = texts(self.diagnostics@).skip(old(self).diagnostics@.len() as int);
                assert(reported =~= read.reports);
                assert(is_refused(
                    source@,
                    old(self).numbering(),
                    old(self).evaluator(),
                    tokens@,
                    Seq::empty(),
                    texts(self.reports()).skip(old(self).reports().len() as int),
                ));
            }
            return Err(Error::Parse);
        }
        let statements = match parsed {
            Ok(statements) => statements,
            Err(e) => {
                return Err(e);
            },
        };
        let mut resolver = Resolver::new();
        let ghost top = resolver.resolution(&self.interpreter);
        resolver.resolve_stmts(&statements, &mut self.interpreter);
        proof {
            assert(top.scopes =~= Seq::empty());
            assert(top.reports =~= Seq::empty());
            assert(kind_at(tokens@, tokens@.len() - 1) == TokenType::EOF) by {
                assert(tokens@[tokens@.len() - 1]@ == tokens.deep_view()[tokens@.len() - 1]);
            }
            assert(end == tokens@.len() - 1) by {
                if end < tokens@.len() - 1 {
                    assert(tokens@[end]@ == tokens.deep_view()[end]);
                }
            }
        }
        if resolver.has_failed() {
            self.report_all(resolver.diagnostics());
            proof {
                let reported = texts(self.diagnostics@).skip(old(self).diagnostics@.len() as int);
                assert(reported =~= texts(resolver.reports()));
                assert(is_refused(
                    source@,
                    old(self).numbering(),
                    old(self).evaluator(),
                    tokens@,
                    statements@,
                    texts(self.reports()).skip(old(self).reports().len() as int),
                ));
            }
            return Err(Error::Parse);
        }
        let ghost resolved = self.interpreter;
        let ghost scopes = resolver.scopes();
        let r = self.interpreter.interpret(&statements, host);
        proof {
            assert(texts(resolver.reports()) =~= Seq::empty());
            crate::resolver::lemma_stmts_keep_depth(
                top,
                FunctionType::Outside,
                ClassType::Outside,
                statements@,
                statements@.len(),
            );
            assert(scopes =~= Seq::empty());
            assert(is_run(
                host,
                source@,
                old(self).numbering(),
                old(self).evaluator(),
                tokens@,
                statements@,
                resolved,
                self.interpreter,
                r,
            ));
        }
        r
    }
}

} // verus!
