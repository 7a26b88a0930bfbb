//! Callable values.
use vstd::prelude::*;
use std::rc::Rc;
use vstd::string::*;
use crate::env::Environment;
use crate::object::Object;
use crate::syntax::FunctionDeclaration;

verus! {

/// What a native function computes.
#[derive(Debug, Clone, Copy, PartialEq, Eq, Structural)]
pub enum NativeBody {
    /// The time in milliseconds.
    Clock,
}

/// A callable value.
pub enum Function {
    /// A function of the host.
    Native { arity: usize, body: NativeBody },
    /// A function of the program: its declaration, the environment in
    /// which it was declared, and whether it is an initializer.
    User { declaration: Rc<FunctionDeclaration>, closure: usize, is_initializer: bool },
}

/// Another handle on the same declaration (`Rc::clone`): the result is
/// the value that `declaration` holds.
#[verifier::external_body]
pub(crate) fn share(declaration: &Rc<FunctionDeclaration>) -> (r: Rc<FunctionDeclaration>)
    ensures
        r == *declaration,
{
    Rc::clone(declaration)
}

impl Clone for Function {
    fn clone(&self) -> (r: Function)
        ensures
            r == *self,
    {
        match self {
            Function::Native { arity, body } => Function::Native { arity: *arity, body: *body },
            Function::User { declaration, closure, is_initializer } => Function::User {
                declaration: share(declaration),
                closure: *closure,
                is_initializer: *is_initializer,
            },
        }
    }
}

/// `f` is `method` bound to `instance`: the same function, declared in a new
/// frame that lies inside the method's own and holds `this` alone. `before`
/// and `after` are the frames around the binding. A native function is bound
/// as it is.
pub open spec fn is_bound(
    f: Function,
    method: Function,
    instance: Object,
    before: Seq<Environment>,
    after: Seq<Environment>,
) -> bool {
    match method {
        Function::Native { .. } => f == method && after == before,
        Function::User { declaration, closure, is_initializer } => {
            &&& f == (Function::User { declaration, closure: before.len() as usize, is_initializer })
            &&& after.len() == before.len() + 1
            &&& after.subrange(0, before.len() as int) =~= before
            &&& after[before.len() as int].enclosing == Some(closure)
            &&& after[before.len() as int].bindings() == Map::<Seq<char>, Object>::empty().insert(
                "this"@,
                instance,
            )
        },
    }
}

impl Function {
    /// The method bound to `instance`, for a call that sees the instance
    /// as `this`.
    pub fn bind(&self, instance: Object, environments: &mut Vec<Environment>) -> (r: Function)
        ensures
            is_bound(r, *self, instance, old(environments)@, final(environments)@),
    {
        match self {
            Function::Native { arity, body } => Function::Native { arity: *arity, body: *body },
            Function::User { declaration, closure, is_initializer } => {
                let mut environment = Environment::from(*closure);
                environment.define(String::from_str("this"), instance);
                let index = environments.len();
                environments.push(environment);
                Function::User {
                    declaration: share(declaration),
                    closure: index,
                    is_initializer: *is_initializer,
                }
            },
        }
    }

    /// The number of arguments the function takes.
    pub open spec fn spec_arity(self) -> nat {
        match self {
            Function::Native { arity, .. } => arity as nat,
            Function::User { declaration, .. } => declaration.params.len() as nat,
        }
    }

    pub fn arity(&self) -> (r: usize)
        ensures
            r == self.spec_arity(),
    {
        match self {
            Function::Native { arity, .. } => *arity,
            Function::User { declaration, .. } => declaration.params.len(),
        }
    }
}

} // verus!
