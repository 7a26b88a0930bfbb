//! Classes and instances. The classes of one interpreter stand in one table,
//! and so do its instances; a class names its superclass, and an instance its
//! class, by its place there.
use vstd::prelude::*;
use vstd::hash_map::StringHashMap;
use vstd::string::*;
use crate::env::{is_runtime_error, Environment};
use crate::error::Error;
use std::rc::Rc;
use crate::function::{is_bound, share, Function};
use crate::syntax::FunctionDeclaration;
use crate::object::Object;
use crate::token::Token;

verus! {

/// A class: its name, its superclass, if any, and its own methods.
pub struct LoxClass {
    pub name: String,
    pub superclass: Option<usize>,
    pub methods: StringHashMap<Function>,
}

/// An instance: its class and its fields.
pub struct LoxInstance {
    pub class: usize,
    pub fields: StringHashMap<Object>,
}

/// The nearest class, from `class` up the chain of superclasses, that has a
/// method `name` of its own. A superclass counts only if it was made before
/// its subclass.
pub open spec fn method_owner(classes: Seq<LoxClass>, class: int, name: Seq<char>) -> Option<int>
    decreases class,
{
    if !(0 <= class < classes.len()) {
        None
    } else if classes[class].methods@.contains_key(name) {
        Some(class)
    } else {
        match classes[class].superclass {
            Some(s) => if s < class {
                method_owner(classes, s as int, name)
            } else {
                None
            },
            None => None,
        }
    }
}

/// The method `name` as instances of `class` see it.
pub open spec fn method_of(classes: Seq<LoxClass>, class: int, name: Seq<char>) -> Option<Function> {
    match method_owner(classes, class, name) {
        Some(owner) => Some(classes[owner].methods@[name]),
        None => None,
    }
}

/// The method that a class makes of a declaration: a function declared in
/// the frame `closure`, an initializer if its name is `init`.
pub open spec fn method_from(declaration: Rc<FunctionDeclaration>, closure: usize) -> Function {
    Function::User {
        declaration,
        closure,
        is_initializer: declaration.name.lexeme@ == "init"@,
    }
}

/// The methods that a class makes of the first `n` of its declarations: each
/// under its name, a later one over an earlier one of the same name.
pub open spec fn method_table(
    declarations: Seq<Rc<FunctionDeclaration>>,
    closure: usize,
    n: nat,
) -> Map<Seq<char>, Function>
    decreases n,
{
    if n == 0 || n > declarations.len() {
        Map::empty()
    } else {
        method_table(declarations, closure, (n - 1) as nat).insert(
            declarations[n - 1].name.lexeme@,
            method_from(declarations[n - 1], closure),
        )
    }
}

/// The message for a property that is not there.
pub open spec fn undefined_property(name: Seq<char>) -> Seq<char> {
    "Undefined property '"@ + name + "'."@
}

/// Builds the error for a property that is not there.
pub fn no_property<T>(name: &Token) -> (r: Result<T, Error>)
    ensures
        is_runtime_error(r, *name, undefined_property(name.lexeme@)),
{
    let mut message = String::from_str("Undefined property '");
    message.append(name.lexeme.as_str());
    message.append("'.");
    Err(Error::Runtime { token: name.clone(), message })
}

/// A method that a class does not declare itself is the method that its
/// superclass offers: with classes `a`, `b` and `c`, each the superclass of
/// the next, a method that `c` lacks and `b` declares is found on `c` as
/// `b` declares it.
pub proof fn lemma_method_resolution(
    classes: Seq<LoxClass>,
    a: usize,
    b: usize,
    c: usize,
    name: Seq<char>,
)
    requires
        a < b < c < classes.len(),
        classes[c as int].superclass == Some(b),
        classes[b as int].superclass == Some(a),
        !classes[c as int].methods@.contains_key(name),
        classes[b as int].methods@.contains_key(name),
    ensures
        method_owner(classes, c as int, name) == Some(b as int),
        method_of(classes, c as int, name) == Some(classes[b as int].methods@[name]),
{
    assert(method_owner(classes, b as int, name) == Some(b as int));
}

/// The class that offers a method has it, lies on the chain of superclasses
/// at or above the class asked, and no class nearer on the chain has it.
pub proof fn lemma_method_owner(classes: Seq<LoxClass>, class: int, name: Seq<char>)
    ensures
        method_owner(classes, class, name) matches Some(owner) ==> 0 <= owner <= class && class
            < classes.len() && classes[owner].methods@.contains_key(name) && (owner != class
            ==> !classes[class].methods@.contains_key(name)),
        method_owner(classes, class, name) is None && 0 <= class < classes.len()
            ==> !classes[class].methods@.contains_key(name),
    decreases class,
{
    if 0 <= class < classes.len() && !classes[class].methods@.contains_key(name) {
        match classes[class].superclass {
            Some(s) => {
                if s < class {
                    lemma_method_owner(classes, s as int, name);
                }
            },
            None => {},
        }
    }
}

impl LoxClass {
    /// The class `name` with the given superclass, whose methods are the
    /// declarations, each closed over the frame `closure`.
    pub fn declare(
        name: &Token,
        superclass: Option<usize>,
        declarations: &Vec<Rc<FunctionDeclaration>>,
        closure: usize,
    ) -> (r: LoxClass)
        ensures
            r.name@ == name.lexeme@,
            r.superclass == superclass,
            r.methods@ == method_table(declarations@, closure, declarations@.len()),
    {
        let mut class_methods: StringHashMap<Function> = StringHashMap::new();
        let init = String::from_str("init");
        let mut i: usize = 0;
        while i < declarations.len()
            invariant
                i <= declarations.len(),
                init@ == "init"@,
                class_methods@ == method_table(declarations@, closure, i as nat),
            decreases declarations.len() - i,
        {
            let declaration = &declarations[i];
            let function = Function::User {
                declaration: share(declaration),
                closure,
                is_initializer: declaration.name.lexeme == init,
            };
            class_methods.insert(declaration.name.lexeme.clone(), function);
            i += 1;
        }
        LoxClass { name: name.lexeme.clone(), superclass, methods: class_methods }
    }

    /// Looks `name` up on `class`, then up the chain of its superclasses,
    /// and hands out the first method found.
    pub fn find_method(classes: &Vec<LoxClass>, class: usize, name: &str) -> (r: Option<Function>)
        ensures
            r == method_of(classes@, class as int, name@),
    {
        let mut at = class;
        loop
            invariant
                method_owner(classes@, at as int, name@) == method_owner(
                    classes@,
                    class as int,
                    name@,
                ),
            decreases at,
        {
            if at >= classes.len() {
                return None;
            }
            match classes[at].methods.get(name) {
                Some(method) => {
                    return Some(method.clone());
                },
                None => {},
            }
            match classes[at].superclass {
                Some(s) => {
                    if s < at {
                        at = s;
                    } else {
                        return None;
                    }
                },
                None => {
                    return None;
                },
            }
        }
    }
}

impl LoxInstance {
    /// A new instance of `class`, without fields.
    pub fn new(class: usize) -> (r: LoxInstance)
        ensures
            r.class == class,
            r.fields@ == Map::<Seq<char>, Object>::empty(),
    {
        LoxInstance { class, fields: StringHashMap::new() }
    }

    /// The property `name` of this instance, which the caller holds as
    /// `instance`: the field of that name if there is one, else the method
    /// of that name, bound to the instance.
    pub fn get(
        &self,
        name: &Token,
        instance: &Object,
        classes: &Vec<LoxClass>,
        environments: &mut Vec<Environment>,
    ) -> (r: Result<Object, Error>)
        ensures
            if self.fields@.contains_key(name.lexeme@) {
                &&& r == Ok::<Object, Error>(self.fields@[name.lexeme@])
                &&& final(environments)@ == old(environments)@
            } else {
                match method_of(classes@, self.class as int, name.lexeme@) {
                    Some(method) => {
                        &&& r matches Ok(Object::Callable(f))
                        &&& is_bound(f, method, *instance, old(environments)@, final(environments)@)
                    },
                    None => {
                        &&& is_runtime_error(r, *name, undefined_property(name.lexeme@))
                        &&& final(environments)@ == old(environments)@
                    },
                }
            },
    {
        if let Some(field) = self.fields.get(name.lexeme.as_str()) {
            return Ok(field.clone());
        }
        match LoxClass::find_method(classes, self.class, name.lexeme.as_str()) {
            Some(method) => Ok(Object::Callable(method.bind(instance.clone(), environments))),
            None => no_property(name),
        }
    }

    /// Sets the field `name`, over an earlier value if there is one.
    pub fn set(&mut self, name: &Token, value: Object)
        ensures
            final(self).class == old(self).class,
            final(self).fields@ == old(self).fields@.insert(name.lexeme@, value),
    {
        self.fields.insert(name.lexeme.clone(), value);
    }
}

} // verus!
