//! Environments: frames of variables, each inside the frame in which it was
//! made. The frames of one interpreter stand in one table, and a frame names
//! the frame around it by its place there.
use vstd::prelude::*;
use vstd::hash_map::StringHashMap;
use vstd::string::*;
use crate::error::Error;
use crate::object::Object;
use crate::token::Token;

verus! {

/// One frame: its variables, and the frame around it, if any.
pub struct Environment {
    pub enclosing: Option<usize>,
    pub values: StringHashMap<Object>,
}

/// The frame reached from `start` by walking `distance` links outwards.
pub open spec fn ancestor(frames: Seq<Environment>, start: int, distance: nat) -> Option<int>
    decreases distance,
{
    if !(0 <= start < frames.len()) {
        None
    } else if distance == 0 {
        Some(start)
    } else {
        match frames[start].enclosing {
            Some(p) => ancestor(frames, p as int, (distance - 1) as nat),
            None => None,
        }
    }
}

/// The nearest frame, from `start` outwards, that holds `name`. A link
/// counts only if it leads to a frame made earlier.
pub open spec fn holder(frames: Seq<Environment>, start: int, name: Seq<char>) -> Option<int>
    decreases start,
{
    if !(0 <= start < frames.len()) {
        None
    } else if frames[start].bindings().contains_key(name) {
        Some(start)
    } else {
        match frames[start].enclosing {
            Some(p) => if p < start {
                holder(frames, p as int, name)
            } else {
                None
            },
            None => None,
        }
    }
}

/// The message for a variable that is not there.
pub open spec fn undefined_variable(name: Seq<char>) -> Seq<char> {
    "Undefined variable '"@ + name + "'."@
}

/// The runtime error `message` at `token`.
pub open spec fn is_runtime_error<T>(r: Result<T, Error>, at: Token, text: Seq<char>) -> bool {
    r matches Err(Error::Runtime { token, message }) && token == at && message@ == text
}

/// `after` is `before` with `name` bound to `value` in frame `at`, and
/// nothing else changed.
pub open spec fn bound_in(
    after: Seq<Environment>,
    before: Seq<Environment>,
    at: int,
    name: Seq<char>,
    value: Object,
) -> bool {
    &&& after.len() == before.len()
    &&& 0 <= at < before.len()
    &&& after[at].enclosing == before[at].enclosing
    &&& after[at].bindings() == before[at].bindings().insert(name, value)
    &&& forall|i: int| 0 <= i < before.len() && i != at ==> after[i] == before[i]
}

/// What reading `name` in the frame `distance` links out from `start`
/// gives: the value bound there, or the error of an undefined variable.
pub open spec fn got_at(
    frames: Seq<Environment>,
    start: int,
    distance: nat,
    name: Token,
    r: Result<Object, Error>,
) -> bool {
    match ancestor(frames, start, distance) {
        Some(a) => if frames[a].bindings().contains_key(name.lexeme@) {
            r == Ok::<Object, Error>(frames[a].bindings()[name.lexeme@])
        } else {
            is_runtime_error(r, name, undefined_variable(name.lexeme@))
        },
        None => is_runtime_error(r, name, undefined_variable(name.lexeme@)),
    }
}

/// What reading `name` in the nearest frame that binds it gives.
pub open spec fn got(
    frames: Seq<Environment>,
    start: int,
    name: Token,
    r: Result<Object, Error>,
) -> bool {
    match holder(frames, start, name.lexeme@) {
        Some(h) => r == Ok::<Object, Error>(frames[h].bindings()[name.lexeme@]),
        None => is_runtime_error(r, name, undefined_variable(name.lexeme@)),
    }
}

/// What binding `name` to `value` in the frame `at` does, if there is such
/// a frame: `after` is `before` with the binding; without the frame nothing
/// changes, and the variable is undefined.
pub open spec fn stored<T>(
    after: Seq<Environment>,
    before: Seq<Environment>,
    at: Option<int>,
    name: Token,
    value: Object,
    r: Result<T, Error>,
) -> bool {
    match at {
        Some(a) => r is Ok && bound_in(after, before, a, name.lexeme@, value),
        None => is_runtime_error(r, name, undefined_variable(name.lexeme@)) && after == before,
    }
}

/// Builds the error for a variable that is not there.
pub fn undefined<T>(name: &Token) -> (r: Result<T, Error>)
    ensures
        is_runtime_error(r, *name, undefined_variable(name.lexeme@)),
{
    let mut message = String::from_str("Undefined variable '");
    message.append(name.lexeme.as_str());
    message.append("'.");
    Err(Error::Runtime { token: name.clone(), message })
}

impl Environment {
    /// The variables of the frame.
    pub open spec fn bindings(&self) -> Map<Seq<char>, Object> {
        self.values@
    }

    /// A frame with nothing around it.
    pub fn new() -> (r: Self)
        ensures
            r.enclosing is None,
            r.bindings() == Map::<Seq<char>, Object>::empty(),
    {
        Environment { enclosing: None, values: StringHashMap::new() }
    }

    /// A frame inside the frame `enclosing`.
    pub fn from(enclosing: usize) -> (r: Self)
        ensures
            r.enclosing == Some(enclosing),
            r.bindings() == Map::<Seq<char>, Object>::empty(),
    {
        Environment { enclosing: Some(enclosing), values: StringHashMap::new() }
    }

    /// Binds `name` in this frame, over an earlier binding if there is
    /// one.
    pub fn define(&mut self, name: String, value: Object)
        ensures
            final(self).enclosing == old(self).enclosing,
            final(self).bindings() == old(self).bindings().insert(name@, value),
    {
        self.values.insert(name, value);
    }

    /// The value of `name` in this frame.
    pub fn get_local(&self, name: &str) -> (r: Option<Object>)
        ensures
            r == (if self.bindings().contains_key(name@) {
                Some(self.bindings()[name@])
            } else {
                None
            }),
    {
        match self.values.get(name) {
            Some(value) => Some(value.clone()),
            None => None,
        }
    }

    /// Whether this frame binds `name`.
    pub fn has(&self, name: &str) -> (r: bool)
        ensures
            r == self.bindings().contains_key(name@),
    {
        self.values.contains_key(name)
    }

    /// Walks `distance` links outwards from `start`.
    pub fn ancestor(frames: &Vec<Environment>, start: usize, distance: usize) -> (r: Option<usize>)
        ensures
            r matches Some(a) ==> ancestor(frames@, start as int, distance as nat) == Some(
                a as int,
            ) && a < frames.len(),
            r is None ==> ancestor(frames@, start as int, distance as nat) is None,
    {
        let mut at = start;
        let mut left = distance;
        while left > 0
            invariant
                ancestor(frames@, at as int, left as nat) == ancestor(
                    frames@,
                    start as int,
                    distance as nat,
                ),
            decreases left,
        {
            if at >= frames.len() {
                return None;
            }
            match frames[at].enclosing {
                Some(p) => {
                    at = p;
                },
                None => {
                    return None;
                },
            }
            left -= 1;
        }
        if at < frames.len() {
            Some(at)
        } else {
            None
        }
    }

    /// The value of `name` in the frame `distance` links out from `start`,
    /// if that frame is there and binds the name.
    pub fn value_at(frames: &Vec<Environment>, start: usize, distance: usize, name: &str) -> (r:
        Option<Object>)
        ensures
            r == (match ancestor(frames@, start as int, distance as nat) {
                Some(a) => if frames[a].bindings().contains_key(name@) {
                    Some(frames[a].bindings()[name@])
                } else {
                    None
                },
                None => None,
            }),
    {
        match Environment::ancestor(frames, start, distance) {
            Some(a) => frames[a].get_local(name),
            None => None,
        }
    }

    /// The value of `name` in the frame `distance` links out from `start`:
    /// exactly that frame is looked into.
    pub fn get_at(frames: &Vec<Environment>, start: usize, distance: usize, name: &Token) -> (r:
        Result<Object, Error>)
        ensures
            got_at(frames@, start as int, distance as nat, *name, r),
    {
        match Environment::ancestor(frames, start, distance) {
            Some(a) => match frames[a].get_local(name.lexeme.as_str()) {
                Some(value) => Ok(value),
                None => undefined(name),
            },
            None => undefined(name),
        }
    }

    /// Binds `name` in the frame `distance` links out from `start`.
    pub fn assign_at(
        frames: &mut Vec<Environment>,
        start: usize,
        distance: usize,
        name: &Token,
        value: Object,
    ) -> (r: Result<(), Error>)
        ensures
            stored(
                final(frames)@,
                old(frames)@,
                ancestor(old(frames)@, start as int, distance as nat),
                *name,
                value,
                r,
            ),
    {
        match Environment::ancestor(frames, start, distance) {
            Some(a) => {
                frames[a].define(name.lexeme.clone(), value);
                Ok(())
            },
            None => undefined(name),
        }
    }

    /// The index of the nearest frame, from `start` outwards, that binds
    /// `name`.
    pub fn find(frames: &Vec<Environment>, start: usize, name: &str) -> (r: Option<usize>)
        ensures
            r matches Some(h) ==> holder(frames@, start as int, name@) == Some(h as int) && h
                < frames.len() && frames[h as int].bindings().contains_key(name@),
            r is None ==> holder(frames@, start as int, name@) is None,
    {
        let mut at = start;
        loop
            invariant
                holder(frames@, at as int, name@) == holder(frames@, start as int, name@),
            decreases at,
        {
            if at >= frames.len() {
                return None;
            }
            if frames[at].has(name) {
                return Some(at);
            }
            match frames[at].enclosing {
                Some(p) => {
                    if p < at {
                        at = p;
                    } else {
                        return None;
                    }
                },
                None => {
                    return None;
                },
            }
        }
    }

    /// The value of `name` in the nearest frame that binds it.
    pub fn get(frames: &Vec<Environment>, start: usize, name: &Token) -> (r: Result<Object, Error>)
        ensures
            got(frames@, start as int, *name, r),
    {
        match Environment::find(frames, start, name.lexeme.as_str()) {
            Some(h) => match frames[h].get_local(name.lexeme.as_str()) {
                Some(value) => Ok(value),
                None => undefined(name),
            },
            None => undefined(name),
        }
    }

    /// Binds `name` anew in the nearest frame that binds it already.
    pub fn assign(frames: &mut Vec<Environment>, start: usize, name: &Token, value: Object) -> (r:
        Result<(), Error>)
        ensures
            stored(
                final(frames)@,
                old(frames)@,
                holder(old(frames)@, start as int, name.lexeme@),
                *name,
                value,
                r,
            ),
    {
        match Environment::find(frames, start, name.lexeme.as_str()) {
            Some(h) => {
                frames[h].define(name.lexeme.clone(), value);
                Ok(())
            },
            None => undefined(name),
        }
    }
}

} // verus!
