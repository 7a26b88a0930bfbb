//! The static resolver: for each use of a variable, how many scopes lie
//! between the use and the declaration; and the rules on `return`, `this` and
//! `super` that can be checked before a program runs.
use vstd::prelude::*;
use vstd::hash_map::StringHashMap;
use vstd::string::*;
use std::rc::Rc;
use crate::error::{diagnostic, parser_error, texts, token_context};
use crate::interpreter::Interpreter;
use crate::syntax::{shared, Expr, FunctionDeclaration, Stmt};
use crate::token::Token;

verus! {

/// The kind of function whose body is being resolved.
#[derive(Debug, Clone, Copy, PartialEq, Eq, Structural)]
pub enum FunctionType {
    /// Not in a function.
    Outside,
    Function,
    Initializer,
    Method,
}

/// The kind of class whose body is being resolved.
#[derive(Debug, Clone, Copy, PartialEq, Eq, Structural)]
pub enum ClassType {
    /// Not in a class.
    Outside,
    Class,
    Subclass,
}

/// The names of one scope, each with whether it is defined yet.
pub type Scope = Map<Seq<char>, bool>;

/// The number of scopes between the innermost scope and the nearest scope
/// that declares `name`, looking no nearer than `skip` scopes out.
pub open spec fn depth_of(scopes: Seq<Scope>, name: Seq<char>, skip: nat) -> Option<nat>
    decreases scopes.len() - skip,
{
    if skip >= scopes.len() {
        None
    } else if scopes[scopes.len() - 1 - skip].contains_key(name) {
        Some(skip)
    } else {
        depth_of(scopes, name, skip + 1)
    }
}

/// Every use of a variable has a distance or is global: the distance found
/// for a name is that of a scope that declares it, no nearer scope declares
/// it, and where none is found no scope declares it.
pub proof fn lemma_depth_of(scopes: Seq<Scope>, name: Seq<char>, skip: nat)
    ensures
        match depth_of(scopes, name, skip) {
            Some(d) => {
                &&& skip <= d < scopes.len()
                &&& scopes[scopes.len() - 1 - d].contains_key(name)
                &&& forall|e: int|
                    skip <= e < d ==> !(#[trigger] scopes[scopes.len() - 1 - e]).contains_key(name)
            },
            None => forall|e: int|
                skip <= e < scopes.len() ==> !(#[trigger] scopes[scopes.len() - 1 - e]).contains_key(
                    name,
                ),
        },
    decreases scopes.len() - skip,
{
    if skip < scopes.len() && !scopes[scopes.len() - 1 - skip].contains_key(name) {
        lemma_depth_of(scopes, name, skip + 1);
    }
}

/// Where the resolver stands: the scopes around the place it has reached,
/// outermost first, the distances recorded so far by the number of the
/// expression, whether anything was reported, and the diagnostics reported
/// so far, oldest first.
pub struct Resolution {
    pub scopes: Seq<Scope>,
    pub table: Map<usize, usize>,
    pub failed: bool,
    pub reports: Seq<Seq<char>>,
}


/// `r`, with the distance of `name` recorded for the expression numbered
/// `id`. A name that no scope declares is global, and nothing is recorded.
pub open spec fn recorded(r: Resolution, id: usize, name: Seq<char>) -> Resolution {
    match depth_of(r.scopes, name, 0) {
        Some(d) => Resolution { table: r.table.insert(id, d as usize), ..r },
        None => r,
    }
}

/// `r`, failed with `message` reported at `token` if `wrong`.
pub open spec fn failing(r: Resolution, wrong: bool, token: Token, message: Seq<char>) -> Resolution {
    if wrong {
        Resolution {
            failed: true,
            reports: r.reports.push(diagnostic(token.line as nat, token_context(token@), message)),
            ..r
        }
    } else {
        r
    }
}

/// `r` after the check of a `return` statement in a function of kind
/// `function`: to return from the top level is an error.
pub open spec fn returning(r: Resolution, function: FunctionType, keyword: Token) -> Resolution {
    failing(r, function == FunctionType::Outside, keyword, "Cannot return from top-level code."@)
}

/// `r` after the check of a `return` statement with a value: to return a
/// value from an initializer is an error.
pub open spec fn returning_value(r: Resolution, function: FunctionType, keyword: Token) -> Resolution {
    failing(
        r,
        function == FunctionType::Initializer,
        keyword,
        "Cannot return value from initializer."@,
    )
}

/// `r` after the check of the superclass `parent` of the class `name`: to
/// inherit from oneself is an error.
pub open spec fn inheriting(r: Resolution, name: Token, parent: Token) -> Resolution {
    failing(r, name.lexeme@ == parent.lexeme@, parent, "A class cannot inherit from itself."@)
}

/// `r`, with `name` in the innermost scope, defined or not as `ready` says.
/// At the top level there is no scope, and nothing changes.
pub open spec fn named(r: Resolution, name: Seq<char>, ready: bool) -> Resolution {
    if r.scopes.len() == 0 {
        r
    } else {
        Resolution {
            scopes: r.scopes.update(r.scopes.len() - 1, r.scopes.last().insert(name, ready)),
            ..r
        }
    }
}

/// `r` after the declaration of `name`: the name is in the innermost scope,
/// not yet defined; to declare a name twice in one scope is an error.
pub open spec fn declared(r: Resolution, name: Token) -> Resolution {
    named(
        failing(
            r,
            r.scopes.len() > 0 && r.scopes.last().contains_key(name.lexeme@),
            name,
            "Variable with this name already declared in this scope."@,
        ),
        name.lexeme@,
        false,
    )
}

/// `r` with a new innermost scope.
pub open spec fn opened(r: Resolution) -> Resolution {
    Resolution { scopes: r.scopes.push(Map::empty()), ..r }
}

/// `r` without its innermost scope.
pub open spec fn closed(r: Resolution) -> Resolution {
    if r.scopes.len() == 0 {
        r
    } else {
        Resolution { scopes: r.scopes.drop_last(), ..r }
    }
}

/// `r` after the first `n` of the expressions, in order.
pub open spec fn exprs_resolution(r: Resolution, class: ClassType, es: Seq<Expr>, n: nat) -> Resolution
    decreases es, n,
{
    if n == 0 || n > es.len() {
        r
    } else {
        expr_resolution(exprs_resolution(r, class, es, (n - 1) as nat), class, es[n - 1])
    }
}

/// `r` after an expression inside a class of kind `class`: each variable,
/// `this` and `super` in it has its distance recorded, in the order in which
/// the parts of the expression are evaluated. To read a variable in its own
/// initializer, to use `this` outside a class, and to use `super` outside a
/// class that has a superclass are errors.
pub open spec fn expr_resolution(r: Resolution, class: ClassType, e: Expr) -> Resolution
    decreases e,
{
    match e {
        Expr::Assign { id, name, value } => recorded(
            expr_resolution(r, class, *value),
            id,
            name.lexeme@,
        ),
        Expr::Binary { left, right, .. } => expr_resolution(
            expr_resolution(r, class, *left),
            class,
            *right,
        ),
        Expr::Call { callee, arguments, .. } => exprs_resolution(
            expr_resolution(r, class, *callee),
            class,
            arguments@,
            arguments@.len(),
        ),
        Expr::Get { object, .. } => expr_resolution(r, class, *object),
        Expr::Grouping { expression } => expr_resolution(r, class, *expression),
        Expr::Literal { .. } => r,
        Expr::Logical { left, right, .. } => expr_resolution(
            expr_resolution(r, class, *left),
            class,
            *right,
        ),
        Expr::SetProperty { object, value, .. } => expr_resolution(
            expr_resolution(r, class, *value),
            class,
            *object,
        ),
        Expr::Super { id, keyword, .. } => match class {
            ClassType::Subclass => recorded(r, id, keyword.lexeme@),
            ClassType::Class => failing(
                r,
                true,
                keyword,
                "Cannot use 'super' in a class with no superclass."@,
            ),
            ClassType::Outside => failing(r, true, keyword, "Cannot use 'super' outside of a class."@),
        },
        Expr::This { id, keyword } => if class == ClassType::Outside {
            failing(r, true, keyword, "Cannot use 'this' outside of a class."@)
        } else {
            recorded(r, id, keyword.lexeme@)
        },
        Expr::Unary { right, .. } => expr_resolution(r, class, *right),
        Expr::Variable { id, name } => recorded(
            failing(
                r,
                r.scopes.len() > 0 && r.scopes.last().contains_key(name.lexeme@)
                    && !r.scopes.last()[name.lexeme@],
                name,
                "Cannot read local variable in its own initializer."@,
            ),
            id,
            name.lexeme@,
        ),
    }
}

/// `r` after the first `n` of the parameters, each declared and defined.
pub open spec fn params_resolution(r: Resolution, params: Seq<Token>, n: nat) -> Resolution
    decreases n,
{
    if n == 0 || n > params.len() {
        r
    } else {
        named(
            declared(params_resolution(r, params, (n - 1) as nat), params[n - 1]),
            params[n - 1].lexeme@,
            true,
        )
    }
}

/// `r` after a function of kind `tpe`: its parameters and its body are
/// resolved in a scope of their own.
pub open spec fn function_resolution(
    r: Resolution,
    class: ClassType,
    declaration: FunctionDeclaration,
    tpe: FunctionType,
) -> Resolution
    decreases declaration,
{
    closed(
        stmts_resolution(
            params_resolution(opened(r), declaration.params@, declaration.params@.len()),
            tpe,
            class,
            declaration.body@,
            declaration.body@.len(),
        ),
    )
}

/// The kind of function that a method is: an initializer if its name is
/// `init`.
pub open spec fn method_type(declaration: FunctionDeclaration) -> FunctionType {
    if declaration.name.lexeme@ == "init"@ {
        FunctionType::Initializer
    } else {
        FunctionType::Method
    }
}

/// `r` after the first `n` of the methods of a class.
pub open spec fn methods_resolution(
    r: Resolution,
    class: ClassType,
    methods: Seq<Rc<FunctionDeclaration>>,
    n: nat,
) -> Resolution
    decreases methods, n,
{
    if n == 0 || n > methods.len() {
        r
    } else {
        function_resolution(
            methods_resolution(r, class, methods, (n - 1) as nat),
            class,
            *methods[n - 1],
            method_type(*methods[n - 1]),
        )
    }
}

/// `r` after the first `n` of the statements, in order.
pub open spec fn stmts_resolution(
    r: Resolution,
    function: FunctionType,
    class: ClassType,
    statements: Seq<Stmt>,
    n: nat,
) -> Resolution
    decreases statements, n,
{
    if n == 0 || n > statements.len() {
        r
    } else {
        stmt_resolution(
            stmts_resolution(r, function, class, statements, (n - 1) as nat),
            function,
            class,
            statements[n - 1],
        )
    }
}

/// `r` after a statement inside a function of kind `function` and a class
/// of kind `class`. A declaration adds its name to the innermost scope; a
/// block, a function and a class resolve what they hold in scopes of their
/// own, a class with a superclass in a scope that holds `super` around the
/// scope that holds `this`. To return from the top level, to return a value
/// from an initializer, and to inherit from oneself are errors.
pub open spec fn stmt_resolution(
    r: Resolution,
    function: FunctionType,
    class: ClassType,
    s: Stmt,
) -> Resolution
    decreases s,
{
    match s {
        Stmt::Block { statements } => closed(
            stmts_resolution(opened(r), function, class, statements@, statements@.len()),
        ),
        Stmt::Class { name, superclass, methods } => {
            let own = named(declared(r, name), name.lexeme@, true);
            match superclass {
                Some(Expr::Variable { id, name: parent }) => {
                    let checked = recorded(
                        inheriting(own, name, parent),
                        id,
                        parent.lexeme@,
                    );
                    let inside = named(opened(named(opened(checked), "super"@, true)), "this"@, true);
                    closed(
                        closed(
                            methods_resolution(inside, ClassType::Subclass, methods@, methods@.len()),
                        ),
                    )
                },
                _ => closed(
                    methods_resolution(
                        named(opened(own), "this"@, true),
                        ClassType::Class,
                        methods@,
                        methods@.len(),
                    ),
                ),
            }
        },
        Stmt::Expression { expression } => expr_resolution(r, class, expression),
        Stmt::Function { declaration } => function_resolution(
            named(declared(r, declaration.name), declaration.name.lexeme@, true),
            class,
            *declaration,
            FunctionType::Function,
        ),
        Stmt::If { condition, else_branch, then_branch } => {
            let taken = stmt_resolution(
                expr_resolution(r, class, condition),
                function,
                class,
                *then_branch,
            );
            match *else_branch {
                Some(other) => stmt_resolution(taken, function, class, other),
                None => taken,
            }
        },
        Stmt::Print { expression } => expr_resolution(r, class, expression),
        Stmt::Return { keyword, value } => {
            let inside = returning(r, function, keyword);
            match value {
                Some(v) => expr_resolution(returning_value(inside, function, keyword), class, v),
                None => inside,
            }
        },
        Stmt::Var { name, initializer } => {
            let known = declared(r, name);
            named(
                match initializer {
                    Some(i) => expr_resolution(known, class, i),
                    None => known,
                },
                name.lexeme@,
                true,
            )
        },
        Stmt::While { condition, body } => stmt_resolution(
            expr_resolution(r, class, condition),
            function,
            class,
            *body,
        ),
        Stmt::Null => r,
    }
}

/// An expression leaves the scopes as it found them.
pub proof fn lemma_expr_keeps_scopes(r: Resolution, class: ClassType, e: Expr)
    ensures
        expr_resolution(r, class, e).scopes == r.scopes,
    decreases e,
{
    match e {
        Expr::Assign { value, .. } => {
            lemma_expr_keeps_scopes(r, class, *value);
        },
        Expr::Binary { left, right, .. } => {
            lemma_expr_keeps_scopes(r, class, *left);
            lemma_expr_keeps_scopes(expr_resolution(r, class, *left), class, *right);
        },
        Expr::Call { callee, arguments, .. } => {
            lemma_expr_keeps_scopes(r, class, *callee);
            lemma_exprs_keep_scopes(
                expr_resolution(r, class, *callee),
                class,
                arguments@,
                arguments@.len(),
            );
        },
        Expr::Get { object, .. } => {
            lemma_expr_keeps_scopes(r, class, *object);
        },
        Expr::Grouping { expression } => {
            lemma_expr_keeps_scopes(r, class, *expression);
        },
        Expr::Literal { .. } => {},
        Expr::Logical { left, right, .. } => {
            lemma_expr_keeps_scopes(r, class, *left);
            lemma_expr_keeps_scopes(expr_resolution(r, class, *left), class, *right);
        },
        Expr::SetProperty { object, value, .. } => {
            lemma_expr_keeps_scopes(r, class, *value);
            lemma_expr_keeps_scopes(expr_resolution(r, class, *value), class, *object);
        },
        Expr::Super { .. } => {},
        Expr::This { .. } => {},
        Expr::Unary { right, .. } => {
            lemma_expr_keeps_scopes(r, class, *right);
        },
        Expr::Variable { .. } => {},
    }
}

/// Expressions leave the scopes as they found them.
pub proof fn lemma_exprs_keep_scopes(r: Resolution, class: ClassType, es: Seq<Expr>, n: nat)
    ensures
        exprs_resolution(r, class, es, n).scopes == r.scopes,
    decreases es, n,
{
    if !(n == 0 || n > es.len()) {
        lemma_exprs_keep_scopes(r, class, es, (n - 1) as nat);
        lemma_expr_keeps_scopes(exprs_resolution(r, class, es, (n - 1) as nat), class, es[n - 1]);
    }
}

/// Parameters leave as many scopes as they found.
pub proof fn lemma_params_keep_depth(r: Resolution, params: Seq<Token>, n: nat)
    ensures
        params_resolution(r, params, n).scopes.len() == r.scopes.len(),
    decreases n,
{
    if !(n == 0 || n > params.len()) {
        lemma_params_keep_depth(r, params, (n - 1) as nat);
    }
}

/// A function leaves as many scopes as it found.
pub proof fn lemma_function_keeps_depth(
    r: Resolution,
    class: ClassType,
    declaration: FunctionDeclaration,
    tpe: FunctionType,
)
    ensures
        function_resolution(r, class, declaration, tpe).scopes.len() == r.scopes.len(),
    decreases declaration,
{
    let inside = params_resolution(opened(r), declaration.params@, declaration.params@.len());
    lemma_params_keep_depth(opened(r), declaration.params@, declaration.params@.len());
    lemma_stmts_keep_depth(inside, tpe, class, declaration.body@, declaration.body@.len());
}

/// Methods leave as many scopes as they found.
pub proof fn lemma_methods_keep_depth(
    r: Resolution,
    class: ClassType,
    methods: Seq<Rc<FunctionDeclaration>>,
    n: nat,
)
    ensures
        methods_resolution(r, class, methods, n).scopes.len() == r.scopes.len(),
    decreases methods, n,
{
    if !(n == 0 || n > methods.len()) {
        lemma_methods_keep_depth(r, class, methods, (n - 1) as nat);
        lemma_function_keeps_depth(
            methods_resolution(r, class, methods, (n - 1) as nat),
            class,
            shared(methods[n - 1]),
            method_type(shared(methods[n - 1])),
        );
    }
}

/// Statements leave as many scopes as they found: every scope that a
/// block, a function or a class opens it closes.
pub proof fn lemma_stmts_keep_depth(
    r: Resolution,
    function: FunctionType,
    class: ClassType,
    statements: Seq<Stmt>,
    n: nat,
)
    ensures
        stmts_resolution(r, function, class, statements, n).scopes.len() == r.scopes.len(),
    decreases statements, n,
{
    if !(n == 0 || n > statements.len()) {
        lemma_stmts_keep_depth(r, function, class, statements, (n - 1) as nat);
        lemma_stmt_keeps_depth(
            stmts_resolution(r, function, class, statements, (n - 1) as nat),
            function,
            class,
            statements[n - 1],
        );
    }
}

/// A statement leaves as many scopes as it found.
pub proof fn lemma_stmt_keeps_depth(
    r: Resolution,
    function: FunctionType,
    class: ClassType,
    s: Stmt,
)
    ensures
        stmt_resolution(r, function, class, s).scopes.len() == r.scopes.len(),
    decreases s,
{
    match s {
        Stmt::Block { statements } => {
            lemma_stmts_keep_depth(opened(r), function, class, statements@, statements@.len());
        },
        Stmt::Class { name, superclass, methods } => {
            let own = named(declared(r, name), name.lexeme@, true);
            match superclass {
                Some(Expr::Variable { id, name: parent }) => {
                    let checked = recorded(
                        inheriting(own, name, parent),
                        id,
                        parent.lexeme@,
                    );
                    let inside = named(
                        opened(named(opened(checked), "super"@, true)),
                        "this"@,
                        true,
                    );
                    lemma_methods_keep_depth(
                        inside,
                        ClassType::Subclass,
                        methods@,
                        methods@.len(),
                    );
                },
                _ => {
                    lemma_methods_keep_depth(
                        named(opened(own), "this"@, true),
                        ClassType::Class,
                        methods@,
                        methods@.len(),
                    );
                },
            }
        },
        Stmt::Expression { expression } => {
            lemma_expr_keeps_scopes(r, class, expression);
        },
        Stmt::Function { declaration } => {
            lemma_function_keeps_depth(
                named(
                    declared(r, shared(declaration).name),
                    shared(declaration).name.lexeme@,
                    true,
                ),
                class,
                shared(declaration),
                FunctionType::Function,
            );
        },
        Stmt::If { condition, else_branch, then_branch } => {
            lemma_expr_keeps_scopes(r, class, condition);
            let tested = expr_resolution(r, class, condition);
            lemma_stmt_keeps_depth(tested, function, class, *then_branch);
            match *else_branch {
                Some(other) => {
                    lemma_stmt_keeps_depth(
                        stmt_resolution(tested, function, class, *then_branch),
                        function,
                        class,
                        other,
                    );
                },
                None => {},
            }
        },
        Stmt::Print { expression } => {
            lemma_expr_keeps_scopes(r, class, expression);
        },
        Stmt::Return { keyword, value } => {
            let inside = returning(r, function, keyword);
            match value {
                Some(v) => {
                    lemma_expr_keeps_scopes(returning_value(inside, function, keyword), class, v);
                },
                None => {},
            }
        },
        Stmt::Var { name, initializer } => {
            let known = declared(r, name);
            match initializer {
                Some(i) => {
                    lemma_expr_keeps_scopes(known, class, i);
                },
                None => {},
            }
        },
        Stmt::While { condition, body } => {
            lemma_expr_keeps_scopes(r, class, condition);
            lemma_stmt_keeps_depth(expr_resolution(r, class, condition), function, class, *body);
        },
        Stmt::Null => {},
    }
}

/// The resolver: the scopes around the place it has reached, each with its
/// names and whether each is defined yet, and what it has reported.
pub struct Resolver {
    scopes: Vec<StringHashMap<bool>>,
    current_function: FunctionType,
    current_class: ClassType,
    pub had_error: bool,
    diagnostics: Vec<String>,
}

impl Resolver {
    /// The scopes, outermost first. The global scope is not among them.
    pub closed spec fn scopes(&self) -> Seq<Scope> {
        Seq::new(self.scopes@.len(), |i: int| self.scopes@[i]@)
    }

    /// The diagnostics reported so far, oldest first.
    pub closed spec fn reports(&self) -> Seq<String> {
        self.diagnostics@
    }

    /// The kind of function being resolved.
    pub closed spec fn in_function(&self) -> FunctionType {
        self.current_function
    }

    /// The kind of class being resolved.
    pub closed spec fn in_class(&self) -> ClassType {
        self.current_class
    }

    /// Whether an error was reported.
    pub closed spec fn failed(&self) -> bool {
        self.had_error
    }

    /// Where the resolver stands, with the distances that `interpreter`
    /// holds.
    pub open spec fn resolution(&self, interpreter: &Interpreter) -> Resolution {
        Resolution {
            scopes: self.scopes(),
            table: interpreter.distances(),
            failed: self.failed(),
            reports: texts(self.reports()),
        }
    }

    /// The resolver has kept its reports and stands in the same function
    /// and class; it has failed if it had, or if it has reported since.
    pub open spec fn after(&self, before: &Resolver) -> bool {
        &&& before.reports().len() <= self.reports().len()
        &&& self.failed() == (before.failed() || before.reports().len() < self.reports().len())
        &&& self.in_function() == before.in_function()
        &&& self.in_class() == before.in_class()
    }

    /// A resolver at the top level of a program.
    pub fn new() -> (r: Self)
        ensures
            r.scopes().len() == 0,
            r.reports().len() == 0,
            !r.failed(),
            r.in_function() == FunctionType::Outside,
            r.in_class() == ClassType::Outside,
    {
        Resolver {
            scopes: Vec::new(),
            current_function: FunctionType::Outside,
            current_class: ClassType::Outside,
            had_error: false,
            diagnostics: Vec::new(),
        }
    }

    /// Whether an error was reported.
    pub fn has_failed(&self) -> (r: bool)
        ensures
            r == self.failed(),
    {
        self.had_error
    }

    /// The diagnostics reported so far.
    pub fn diagnostics(&self) -> (r: &Vec<String>)
        ensures
            r@ == self.reports(),
    {
        &self.diagnostics
    }

    fn resolve_stmt(&mut self, statement: &Stmt, interpreter: &mut Interpreter)
        ensures
            final(self).after(old(self)),
            final(interpreter).same_run(old(interpreter)),
            final(self).resolution(final(interpreter)) == stmt_resolution(
                old(self).resolution(old(interpreter)),
                old(self).in_function(),
                old(self).in_class(),
                *statement,
            ),
        decreases *statement, 1int,
    {
        match statement {
            Stmt::Block { statements } => self.visit_block_stmt(statements, interpreter),
            Stmt::Class { name, superclass, methods } => self.visit_class_stmt(
                name,
                superclass,
                methods,
                interpreter,
            ),
            Stmt::Expression { expression } => self.resolve_expr(expression, interpreter),
            Stmt::Function { declaration } => self.visit_function_stmt(declaration, interpreter),
            Stmt::If { condition, else_branch, then_branch } => {
                self.resolve_expr(condition, interpreter);
                self.resolve_stmt(then_branch, interpreter);
                match &**else_branch {
                    Some(else_stmt) => {
                        self.resolve_stmt(else_stmt, interpreter);
                    },
                    None => {},
                }
            },
            Stmt::Print { expression } => self.resolve_expr(expression, interpreter),
            Stmt::Return { keyword, value } => self.visit_return_stmt(keyword, value, interpreter),
            Stmt::Var { name, initializer } => self.visit_var_stmt(name, initializer, interpreter),
            Stmt::While { condition, body } => {
                self.resolve_expr(condition, interpreter);
                self.resolve_stmt(body, interpreter);
            },
            Stmt::Null => {},
        }
    }

    /// Resolves the statements in order: the distances go to
    /// `interpreter`, the errors to the diagnostics.
    pub fn resolve_stmts(&mut self, statements: &Vec<Stmt>, interpreter: &mut Interpreter)
        ensures
            final(self).after(old(self)),
            final(interpreter).same_run(old(interpreter)),
            final(self).resolution(final(interpreter)) == stmts_resolution(
                old(self).resolution(old(interpreter)),
                old(self).in_function(),
                old(self).in_class(),
                statements@,
                statements@.len(),
            ),
        decreases statements@, 0int,
    {
        let mut i: usize = 0;
        while i < statements.len()
            invariant
                i <= statements.len(),
                self.after(old(self)),
                interpreter.same_run(old(interpreter)),
                self.resolution(interpreter) == stmts_resolution(
                    old(self).resolution(old(interpreter)),
                    old(self).in_function(),
                    old(self).in_class(),
                    statements@,
                    i as nat,
                ),
            decreases statements.len() - i,
        {
            self.resolve_stmt(&statements[i], interpreter);
            i += 1;
        }
    }

    fn resolve_exprs(&mut self, expressions: &Vec<Expr>, interpreter: &mut Interpreter)
        ensures
            final(self).after(old(self)),
            final(interpreter).same_run(old(interpreter)),
            final(self).resolution(final(interpreter)) == exprs_resolution(
                old(self).resolution(old(interpreter)),
                old(self).in_class(),
                expressions@,
                expressions@.len(),
            ),
        decreases expressions@, 0int,
    {
        let mut i: usize = 0;
        while i < expressions.len()
            invariant
                i <= expressions.len(),
                self.after(old(self)),
                interpreter.same_run(old(interpreter)),
                self.resolution(interpreter) == exprs_resolution(
                    old(self).resolution(old(interpreter)),
                    old(self).in_class(),
                    expressions@,
                    i as nat,
                ),
            decreases expressions.len() - i,
        {
            self.resolve_expr(&expressions[i], interpreter);
            i += 1;
        }
    }

    fn resolve_expr(&mut self, expression: &Expr, interpreter: &mut Interpreter)
        ensures
            final(self).after(old(self)),
            final(interpreter).same_run(old(interpreter)),
            final(self).resolution(final(interpreter)) == expr_resolution(
                old(self).resolution(old(interpreter)),
                old(self).in_class(),
                *expression,
            ),
        decreases *expression, 1int,
    {
        match expression {
            Expr::Assign { id, name, value } => {
                self.resolve_expr(value, interpreter);
                self.resolve_local(*id, name, interpreter);
            },
            Expr::Binary { left, right, .. } => {
                self.resolve_expr(left, interpreter);
                self.resolve_expr(right, interpreter);
            },
            Expr::Call { callee, arguments, .. } => {
                self.resolve_expr(callee, interpreter);
                self.resolve_exprs(arguments, interpreter);
            },
            Expr::Get { object, .. } => {
                self.resolve_expr(object, interpreter);
            },
            Expr::Grouping { expression } => {
                self.resolve_expr(expression, interpreter);
            },
            Expr::Literal { .. } => {},
            Expr::Logical { left, right, .. } => {
                self.resolve_expr(left, interpreter);
                self.resolve_expr(right, interpreter);
            },
            Expr::SetProperty { object, value, .. } => {
                self.resolve_expr(value, interpreter);
                self.resolve_expr(object, interpreter);
            },
            Expr::Super { id, keyword, .. } => self.visit_super_expr(*id, keyword, interpreter),
            Expr::This { id, keyword } => self.visit_this_expr(*id, keyword, interpreter),
            Expr::Unary { right, .. } => {
                self.resolve_expr(right, interpreter);
            },
            Expr::Variable { id, name } => self.visit_variable_expr(*id, name, interpreter),
        }
    }

    /// Opens a scope.
    fn begin_scope(&mut self)
        ensures
            final(self).after(old(self)),
            final(self).reports() == old(self).reports(),
            final(self).scopes() == old(self).scopes().push(Map::empty()),
    {
        self.scopes.push(StringHashMap::new());
        assert(self.scopes() =~= old(self).scopes().push(Map::empty()));
    }

    /// Closes the innermost scope.
    fn end_scope(&mut self)
        ensures
            final(self).after(old(self)),
            final(self).reports() == old(self).reports(),
            old(self).scopes().len() > 0 ==> final(self).scopes() == old(self).scopes().drop_last(),
            old(self).scopes().len() == 0 ==> final(self).scopes() == old(self).scopes(),
    {
        self.scopes.pop();
        proof {
            if old(self).scopes@.len() > 0 {
                assert(self.scopes() =~= old(self).scopes().drop_last());
            } else {
                assert(self.scopes() =~= old(self).scopes());
            }
        }
    }

    /// Adds `name` to the innermost scope, not yet defined. A name that
    /// the scope holds already is reported. At the top level nothing is
    /// recorded.
    fn declare(&mut self, name: &Token)
        ensures
            final(self).after(old(self)),
            forall|interpreter: &Interpreter| #[trigger]
                final(self).resolution(interpreter) == declared(
                    old(self).resolution(interpreter),
                    *name,
                ),
    {
        let depth = self.scopes.len();
        if depth == 0 {
            return ;
        }
        let already_defined = self.scopes[depth - 1].contains_key(name.lexeme.as_str());
        self.scopes[depth - 1].insert(name.lexeme.clone(), false);
        assert(self.scopes() =~= old(self).scopes().update(
            depth - 1,
            old(self).scopes().last().insert(name.lexeme@, false),
        ));
        // Report an error if the variable was already declared.
        if already_defined {
            self.error(name, "Variable with this name already declared in this scope.");
        }
    }

    /// Marks `name` as defined in the innermost scope.
    fn define(&mut self, name: &Token)
        ensures
            final(self).after(old(self)),
            final(self).reports() == old(self).reports(),
            forall|interpreter: &Interpreter| #[trigger]
                final(self).resolution(interpreter) == named(
                    old(self).resolution(interpreter),
                    name.lexeme@,
                    true,
                ),
    {
        self.bind(name.lexeme.as_str());
    }

    /// Adds `name`, defined, to the innermost scope.
    fn bind(&mut self, name: &str)
        ensures
            final(self).after(old(self)),
            final(self).reports() == old(self).reports(),
            forall|interpreter: &Interpreter| #[trigger]
                final(self).resolution(interpreter) == named(
                    old(self).resolution(interpreter),
                    name@,
                    true,
                ),
    {
        let depth = self.scopes.len();
        if depth == 0 {
            return ;
        }
        self.scopes[depth - 1].insert(String::from_str(name), true);
        assert(self.scopes() =~= old(self).scopes().update(
            depth - 1,
            old(self).scopes().last().insert(name@, true),
        ));
    }

    /// Resolves a function: its parameters and its body in a scope of
    /// their own.
    fn resolve_function(
        &mut self,
        declaration: &FunctionDeclaration,
        tpe: FunctionType,
        interpreter: &mut Interpreter,
    )
        ensures
            final(self).after(old(self)),
            final(interpreter).same_run(old(interpreter)),
            final(self).resolution(final(interpreter)) == function_resolution(
                old(self).resolution(old(interpreter)),
                old(self).in_class(),
                *declaration,
                tpe,
            ),
        decreases *declaration, 1int,
    {
        let enclosing_function = self.current_function;
        self.current_function = tpe;
        self.begin_scope();
        let ghost start = opened(old(self).resolution(old(interpreter)));
        let mut i: usize = 0;
        while i < declaration.params.len()
            invariant
                i <= declaration.params.len(),
                *interpreter == *old(interpreter),
                self.current_function == tpe,
                self.current_class == old(self).current_class,
                old(self).reports().len() <= self.reports().len(),
                self.failed() == (old(self).failed() || old(self).reports().len()
                    < self.reports().len()),
                self.resolution(interpreter) == params_resolution(
                    start,
                    declaration.params@,
                    i as nat,
                ),
            decreases declaration.params.len() - i,
        {
            self.declare(&declaration.params[i]);
            self.define(&declaration.params[i]);
            i += 1;
        }
        self.resolve_stmts(&declaration.body, interpreter);
        self.end_scope();
        self.current_function = enclosing_function;
    }

    /// Records for the expression numbered `id` the distance to the
    /// nearest scope that declares `name`. Where no scope declares it the
    /// name is global, and nothing is recorded.
    fn resolve_local(&mut self, id: usize, name: &Token, interpreter: &mut Interpreter)
        ensures
            *final(self) == *old(self),
            final(interpreter).same_run(old(interpreter)),
            final(self).resolution(final(interpreter)) == recorded(
                old(self).resolution(old(interpreter)),
                id,
                name.lexeme@,
            ),
    {
        let depth = self.scopes.len();
        let mut i: usize = 0;
        while i < depth
            invariant
                i <= depth,
                depth == self.scopes.len(),
                *self == *old(self),
                *interpreter == *old(interpreter),
                depth_of(self.scopes(), name.lexeme@, i as nat) == depth_of(
                    self.scopes(),
                    name.lexeme@,
                    0,
                ),
            decreases depth - i,
        {
            if self.scopes[depth - 1 - i].contains_key(name.lexeme.as_str()) {
                interpreter.resolve(id, i);
                return ;
            }
            i += 1;
        }
    }

    /// Reports `message` at `token`.
    fn error(&mut self, token: &Token, message: &str)
        ensures
            final(self).after(old(self)),
            final(self).scopes() == old(self).scopes(),
            final(self).failed(),
            final(self).reports().len() == old(self).reports().len() + 1,
            texts(final(self).reports()) == texts(old(self).reports()).push(
                diagnostic(token.line as nat, token_context(token@), message@),
            ),
    {
        self.diagnostics.push(parser_error(token, message));
        self.had_error = true;
        assert(texts(self.diagnostics@) =~= texts(old(self).diagnostics@).push(
            diagnostic(token.line as nat, token_context(token@), message@),
        ));
    }

    fn visit_super_expr(&mut self, id: usize, keyword: &Token, interpreter: &mut Interpreter)
        ensures
            final(self).after(old(self)),
            final(interpreter).same_run(old(interpreter)),
            final(self).resolution(final(interpreter)) == expr_resolution(
                old(self).resolution(old(interpreter)),
                old(self).in_class(),
                Expr::Super { id, keyword: *keyword, method: *keyword },
            ),
    {
        match self.current_class {
            ClassType::Outside => self.error(keyword, "Cannot use 'super' outside of a class."),
            ClassType::Class => self.error(
                keyword,
                "Cannot use 'super' in a class with no superclass.",
            ),
            ClassType::Subclass => self.resolve_local(id, keyword, interpreter),
        }
    }

    fn visit_this_expr(&mut self, id: usize, keyword: &Token, interpreter: &mut Interpreter)
        ensures
            final(self).after(old(self)),
            final(interpreter).same_run(old(interpreter)),
            final(self).resolution(final(interpreter)) == expr_resolution(
                old(self).resolution(old(interpreter)),
                old(self).in_class(),
                Expr::This { id, keyword: *keyword },
            ),
    {
        if let ClassType::Outside = self.current_class {
            self.error(keyword, "Cannot use 'this' outside of a class.");
        } else {
            self.resolve_local(id, keyword, interpreter);
        }
    }

    fn visit_variable_expr(&mut self, id: usize, name: &Token, interpreter: &mut Interpreter)
        ensures
            final(self).after(old(self)),
            final(interpreter).same_run(old(interpreter)),
            final(self).resolution(final(interpreter)) == expr_resolution(
                old(self).resolution(old(interpreter)),
                old(self).in_class(),
                Expr::Variable { id, name: *name },
            ),
    {
        let depth = self.scopes.len();
        if depth > 0 {
            let declared_only = match self.scopes[depth - 1].get(name.lexeme.as_str()) {
                Some(flag) => !*flag,
                None => false,
            };
            if declared_only {
                self.error(name, "Cannot read local variable in its own initializer.");
            }
        }
        self.resolve_local(id, name, interpreter);
    }

    fn visit_block_stmt(&mut self, statements: &Vec<Stmt>, interpreter: &mut Interpreter)
        ensures
            final(self).after(old(self)),
            final(interpreter).same_run(old(interpreter)),
            final(self).resolution(final(interpreter)) == closed(
                stmts_resolution(
                    opened(old(self).resolution(old(interpreter))),
                    old(self).in_function(),
                    old(self).in_class(),
                    statements@,
                    statements@.len(),
                ),
            ),
        decreases statements@, 1int,
    {
        self.begin_scope();
        self.resolve_stmts(statements, interpreter);
        self.end_scope();
    }

    fn resolve_methods(
        &mut self,
        methods: &Vec<Rc<FunctionDeclaration>>,
        interpreter: &mut Interpreter,
    )
        ensures
            final(self).after(old(self)),
            final(interpreter).same_run(old(interpreter)),
            final(self).resolution(final(interpreter)) == methods_resolution(
                old(self).resolution(old(interpreter)),
                old(self).in_class(),
                methods@,
                methods@.len(),
            ),
        decreases methods@, 0int,
    {
        let init = String::from_str("init");
        let mut i: usize = 0;
        while i < methods.len()
            invariant
                i <= methods.len(),
                init@ == "init"@,
                self.after(old(self)),
                interpreter.same_run(old(interpreter)),
                self.resolution(interpreter) == methods_resolution(
                    old(self).resolution(old(interpreter)),
                    old(self).in_class(),
                    methods@,
                    i as nat,
                ),
            decreases methods.len() - i,
        {
            let method = &methods[i];
            let declaration = if method.name.lexeme == init {
                FunctionType::Initializer
            } else {
                FunctionType::Method
            };
            self.resolve_function(method, declaration, interpreter);
            i += 1;
        }
    }

    fn visit_class_stmt(
        &mut self,
        name: &Token,
        superclass: &Option<Expr>,
        methods: &Vec<Rc<FunctionDeclaration>>,
        interpreter: &mut Interpreter,
    )
        ensures
            final(self).after(old(self)),
            final(interpreter).same_run(old(interpreter)),
            final(self).resolution(final(interpreter)) == stmt_resolution(
                old(self).resolution(old(interpreter)),
                old(self).in_function(),
                old(self).in_class(),
                Stmt::Class { name: *name, superclass: *superclass, methods: *methods },
            ),
        decreases methods@, 1int,
    {
        let enclosing_class = self.current_class;
        let ghost start = self.resolution(interpreter);
        self.current_class = ClassType::Class;
        self.declare(name);
        assert(self.resolution(interpreter) == declared(start, *name));
        self.define(name);
        let ghost own = named(declared(start, *name), name.lexeme@, true);
        assert(self.resolution(interpreter) == own);
        let mut has_superclass = false;
        if let Some(Expr::Variable { id, name: superclass_name }) = superclass {
            if name.lexeme == superclass_name.lexeme {
                self.error(superclass_name, "A class cannot inherit from itself.");
            }
            assert(self.resolution(interpreter) == inheriting(own, *name, *superclass_name));
            self.current_class = ClassType::Subclass;
            self.resolve_local(*id, superclass_name, interpreter);
            let ghost checked = recorded(
                inheriting(own, *name, *superclass_name),
                *id,
                superclass_name.lexeme@,
            );
            assert(self.resolution(interpreter) == checked);
            self.begin_scope();
            assert(self.resolution(interpreter) == opened(checked));
            self.bind("super");
            assert(self.resolution(interpreter) == named(opened(checked), "super"@, true));
            has_superclass = true;
        }
        let ghost outer = self.resolution(interpreter);
        self.begin_scope();
        assert(self.resolution(interpreter) == opened(outer));
        self.bind("this");
        assert(self.resolution(interpreter) == named(opened(outer), "this"@, true));
        self.resolve_methods(methods, interpreter);
        let ghost resolved = self.resolution(interpreter);
        self.end_scope();
        assert(self.resolution(interpreter) == closed(resolved));
        if has_superclass {
            self.end_scope();
            assert(self.resolution(interpreter) == closed(closed(resolved)));
        }
        self.current_class = enclosing_class;
    }

    fn visit_function_stmt(
        &mut self,
        declaration: &Rc<FunctionDeclaration>,
        interpreter: &mut Interpreter,
    )
        ensures
            final(self).after(old(self)),
            final(interpreter).same_run(old(interpreter)),
            final(self).resolution(final(interpreter)) == stmt_resolution(
                old(self).resolution(old(interpreter)),
                old(self).in_function(),
                old(self).in_class(),
                Stmt::Function { declaration: *declaration },
            ),
        decreases **declaration, 2int,
    {
        self.declare(&declaration.name);
        self.define(&declaration.name);
        self.resolve_function(declaration, FunctionType::Function, interpreter);
    }

    fn visit_return_stmt(
        &mut self,
        keyword: &Token,
        value: &Option<Expr>,
        interpreter: &mut Interpreter,
    )
        ensures
            final(self).after(old(self)),
            final(interpreter).same_run(old(interpreter)),
            final(self).resolution(final(interpreter)) == stmt_resolution(
                old(self).resolution(old(interpreter)),
                old(self).in_function(),
                old(self).in_class(),
                Stmt::Return { keyword: *keyword, value: *value },
            ),
        decreases *value, 0int,
    {
        if let FunctionType::Outside = self.current_function {
            self.error(keyword, "Cannot return from top-level code.");
        }
        if let Some(return_value) = value {
            if let FunctionType::Initializer = self.current_function {
                self.error(keyword, "Cannot return value from initializer.");
            }
            self.resolve_expr(return_value, interpreter);
        }
    }

    fn visit_var_stmt(
        &mut self,
        name: &Token,
        initializer: &Option<Expr>,
        interpreter: &mut Interpreter,
    )
        ensures
            final(self).after(old(self)),
            final(interpreter).same_run(old(interpreter)),
            final(self).resolution(final(interpreter)) == stmt_resolution(
                old(self).resolution(old(interpreter)),
                old(self).in_function(),
                old(self).in_class(),
                Stmt::Var { name: *name, initializer: *initializer },
            ),
        decreases *initializer, 0int,
    {
        self.declare(name);
        if let Some(init) = initializer {
            self.resolve_expr(init, interpreter);
        }
        self.define(name);
    }
}

} // verus!
