use vstd::prelude::*;

use crate::object::{Object, ObjectV};
use crate::token::Token;

verus! {

/// A scope: what each name in it stands for.
pub type Scope = Map<Seq<char>, ObjectV>;

/// The scope that a list of bindings makes.
pub open spec fn scope_of(values: Seq<(String, Object)>) -> Scope
    decreases values.len(),
{
    if values.len() == 0 {
        Map::empty()
    } else {
        scope_of(values.drop_last()).insert(values.last().0@, values.last().1@)
    }
}

/// No name is bound twice in a list of bindings.
pub open spec fn names_unique(values: Seq<(String, Object)>) -> bool {
    forall|i: int, j: int| 0 <= i < j < values.len() ==> values[i].0@ != values[j].0@
}

/// What `name` stands for in a chain of scopes, the innermost first.
pub open spec fn lookup(scopes: Seq<Scope>, name: Seq<char>) -> Option<ObjectV>
    decreases scopes.len(),
{
    if scopes.len() == 0 {
        None
    } else if scopes[0].contains_key(name) {
        Some(scopes[0][name])
    } else {
        lookup(scopes.drop_first(), name)
    }
}

/// The chain of scopes after `name` is bound to `value` in the innermost one.
pub open spec fn defined(scopes: Seq<Scope>, name: Seq<char>, value: ObjectV) -> Seq<Scope> {
    scopes.update(0, scopes[0].insert(name, value))
}

/// The chain of scopes after `name` is set to `value` in the innermost scope that binds it;
/// `None` where no scope binds it.
pub open spec fn assigned(scopes: Seq<Scope>, name: Seq<char>, value: ObjectV) -> Option<Seq<Scope>>
    decreases scopes.len(),
{
    if scopes.len() == 0 {
        None
    } else if scopes[0].contains_key(name) {
        Some(scopes.update(0, scopes[0].insert(name, value)))
    } else {
        match assigned(scopes.drop_first(), name, value) {
            Some(rest) => Some(seq![scopes[0]] + rest),
            None => None,
        }
    }
}

/// The message of a use of a name that no scope binds.
pub open spec fn undefined_message(name: Seq<char>) -> Seq<char> {
    "Undefined variable '"@ + name + "'."@
}

/// An error met while running a program: the line it was met on and its message.
#[derive(Debug)]
pub struct RuntimeError {
    pub line: usize,
    pub message: String,
}

/// The variables in scope: the innermost scope, and the scopes around it.
#[derive(Debug)]
pub struct Environment {
    enclosing: Option<Box<Environment>>,
    values: Vec<(String, Object)>,
}

impl Environment {
    /// The scopes of the environment, the innermost first.
    pub closed spec fn scopes(self) -> Seq<Scope>
        decreases self,
    {
        seq![scope_of(self.values@)] + match self.enclosing {
            Some(b) => (*b).scopes(),
            None => Seq::empty(),
        }
    }

    /// No scope binds a name twice.
    pub closed spec fn wf(self) -> bool
        decreases self,
    {
        names_unique(self.values@) && match self.enclosing {
            Some(b) => (*b).wf(),
            None => true,
        }
    }

    /// Every environment has at least its own innermost scope.
    pub proof fn lemma_scopes_nonempty(self)
        ensures
            self.scopes().len() > 0,
    {
    }

    /// A new innermost scope, empty, inside `enclosing`.
    pub fn new(enclosing: Option<Box<Environment>>) -> (r: Self)
        requires
            match enclosing {
                Some(b) => (*b).wf(),
                None => true,
            },
        ensures
            r.wf(),
            r.scopes() == seq![Map::<Seq<char>, ObjectV>::empty()] + match enclosing {
                Some(b) => (*b).scopes(),
                None => Seq::empty(),
            },
    {
        let r = Environment { enclosing, values: Vec::new() };
        assert(r.values@ =~= Seq::<(String, Object)>::empty());
        r
    }

    /// Ends the innermost scope and gives back the scopes around it, with what was assigned
    /// to them meanwhile; `None` where there is no enclosing scope.
    pub fn into_enclosing(self) -> (r: Option<Box<Environment>>)
        requires
            self.wf(),
        ensures
            r is None <==> self.scopes().len() == 1,
            r matches Some(b) ==> (*b).wf() && (*b).scopes() == self.scopes().drop_first(),
    {
        let ghost whole = self;
        let Environment { enclosing, values } = self;
        proof {
            if enclosing is Some {
                (*enclosing->0).lemma_scopes_nonempty();
            }
            assert(whole.scopes().drop_first() =~= match enclosing {
                Some(b) => (*b).scopes(),
                None => Seq::empty(),
            });
        }
        enclosing
    }

    /// A new innermost scope inside `enclosing`, on the heap.
    pub fn new_ref(enclosing: Option<Box<Environment>>) -> (r: Box<Environment>)
        requires
            match enclosing {
                Some(b) => (*b).wf(),
                None => true,
            },
        ensures
            (*r).wf(),
            (*r).scopes() == seq![Map::<Seq<char>, ObjectV>::empty()] + match enclosing {
                Some(b) => (*b).scopes(),
                None => Seq::empty(),
            },
    {
        Box::new(Self::new(enclosing))
    }

    /// Binds `name` to `value` in the innermost scope, replacing what it stood for there.
    pub fn define(&mut self, name: &str, value: Object)
        requires
            old(self).wf(),
        ensures
            final(self).wf(),
            final(self).scopes() == defined(old(self).scopes(), name@, value@),
    {
        let key = String::from_str(name);
        let ghost v = value@;
        match Self::position(&self.values, &key) {
            Some(i) => {
                proof {
                    lemma_scope_of_unique(self.values@, i as int);
                }
                let ghost before = self.values@;
                self.values.set(i, (key, value));
                proof {
                    lemma_scope_of_set(before, i as int, self.values@[i as int]);
                }
            },
            None => {
                proof {
                    lemma_scope_of_absent(self.values@, key@);
                }
                let ghost before = self.values@;
                let entry = (key, value);
                proof {
                    lemma_scope_of_absent_push(before, entry);
                }
                self.values.push(entry);
                assert(self.values@.drop_last() =~= before);
            },
        }
        assert(self.scopes() =~= defined(old(self).scopes(), name@, v));
    }

    /// Sets `name` to `value` in the innermost scope that binds it.
    pub fn assign(&mut self, name: &Token, value: Object) -> (r: Result<(), RuntimeError>)
        requires
            old(self).wf(),
        ensures
            final(self).wf(),
            match assigned(old(self).scopes(), name.lexeme@, value@) {
                Some(scopes) => r is Ok && final(self).scopes() == scopes,
                None => r is Err && final(self).scopes() == old(self).scopes()
                    && r->Err_0.message@ == undefined_message(name.lexeme@)
                    && r->Err_0.line == name.line,
            },
        decreases *old(self),
    {
        let ghost v = value@;
        let ghost inner = scope_of(self.values@);
        match Self::position(&self.values, &name.lexeme) {
            Some(i) => {
                proof {
                    lemma_scope_of_unique(self.values@, i as int);
                }
                let key = name.lexeme.clone();
                let ghost before = self.values@;
                self.values.set(i, (key, value));
                proof {
                    lemma_scope_of_set(before, i as int, self.values@[i as int]);
                }
                assert(self.scopes() =~= old(self).scopes().update(
                    0,
                    old(self).scopes()[0].insert(name.lexeme@, v),
                ));
                assert(old(self).scopes()[0].contains_key(name.lexeme@));
                assert(assigned(old(self).scopes(), name.lexeme@, v) == Some(self.scopes()));
                Ok(())
            },
            None => {
                proof {
                    lemma_scope_of_absent(self.values@, name.lexeme@);
                }
                match &mut self.enclosing {
                    Some(enclosing) => {
                        let r = enclosing.assign(name, value);
                        assert(self.values@ == old(self).values@);
                        assert(self.enclosing is Some);
                        assert(self.wf());
                        proof {
                            let outer = old(self).enclosing->0.scopes();
                            assert(old(self).scopes().drop_first() =~= outer);
                            match assigned(outer, name.lexeme@, v) {
                                Some(rest) => {
                                    assert(self.scopes() =~= seq![inner] + rest);
                                    assert(assigned(old(self).scopes(), name.lexeme@, v) == Some(seq![inner] + rest));
                                },
                                None => {
                                    assert(self.scopes() =~= old(self).scopes());
                                },
                            }
                        }
                        r
                    },
                    None => {
                        assert(old(self).scopes().drop_first() =~= Seq::<Scope>::empty());
                        assert(assigned(Seq::<Scope>::empty(), name.lexeme@, v) is None);
                        assert(assigned(old(self).scopes(), name.lexeme@, v) is None);
                        Err(undefined(name))
                    },
                }
            },
        }
    }

    /// What `name` stands for in the innermost scope that binds it.
    pub fn get(&self, name: &Token) -> (r: Result<Object, RuntimeError>)
        requires
            self.wf(),
        ensures
            match lookup(self.scopes(), name.lexeme@) {
                Some(v) => r is Ok && r->Ok_0@ == v,
                None => r is Err && r->Err_0.message@ == undefined_message(name.lexeme@)
                    && r->Err_0.line == name.line,
            },
        decreases self,
    {
        match Self::position(&self.values, &name.lexeme) {
            Some(i) => {
                proof {
                    lemma_scope_of_unique(self.values@, i as int);
                }
                Ok(self.values[i].1.clone())
            },
            None => {
                proof {
                    lemma_scope_of_absent(self.values@, name.lexeme@);
                }
                match &self.enclosing {
                    Some(enclosing) => {
                        assert(self.scopes().drop_first() =~= enclosing.scopes());
                        enclosing.get(name)
                    },
                    None => {
                        assert(self.scopes().drop_first() =~= Seq::<Scope>::empty());
                        Err(undefined(name))
                    },
                }
            },
        }
    }

    /// Where `name` is bound in a list of bindings.
    fn position(values: &Vec<(String, Object)>, name: &String) -> (r: Option<usize>)
        ensures
            match r {
                Some(i) => i < values@.len() && values@[i as int].0@ == name@,
                None => forall|j: int| 0 <= j < values@.len() ==> values@[j].0@ != name@,
            },
    {
        let mut i: usize = 0;
        while i < values.len()
            invariant
                i <= values@.len(),
                forall|j: int| 0 <= j < i ==> values@[j].0@ != name@,
            decreases values@.len() - i,
        {
            if values[i].0 == *name {
                return Some(i);
            }
            i += 1;
        }
        None
    }
}

impl Clone for Environment {
    fn clone(&self) -> (r: Self)
        ensures
            r.scopes() == self.scopes(),
            r.wf() == self.wf(),
        decreases self,
    {
        let mut values: Vec<(String, Object)> = Vec::new();
        let mut i: usize = 0;
        while i < self.values.len()
            invariant
                i <= self.values@.len(),
                values@ == self.values@.subrange(0, i as int),
            decreases self.values@.len() - i,
        {
            let name = self.values[i].0.clone();
            let value = self.values[i].1.clone();
            values.push((name, value));
            i += 1;
            assert(values@ =~= self.values@.subrange(0, i as int));
        }
        assert(values@ =~= self.values@);
        let enclosing = match &self.enclosing {
            Some(b) => Some(Box::new((**b).clone())),
            None => None,
        };
        let r = Environment { enclosing, values };
        assert(r.scopes() =~= self.scopes());
        r
    }
}

/// The error of a use of an unbound name.
fn undefined(name: &Token) -> (r: RuntimeError)
    ensures
        r.message@ == undefined_message(name.lexeme@),
        r.line == name.line,
{
    let mut message = String::from_str("Undefined variable '");
    message.append(name.lexeme.as_str());
    message.append("'.");
    RuntimeError { line: name.line, message }
}

proof fn lemma_scope_of_unique(values: Seq<(String, Object)>, i: int)
    requires
        names_unique(values),
        0 <= i < values.len(),
    ensures
        scope_of(values).contains_key(values[i].0@),
        scope_of(values)[values[i].0@] == values[i].1@,
    decreases values.len(),
{
    if i < values.len() - 1 {
        let d = values.drop_last();
        assert(d[i] == values[i]);
        lemma_scope_of_unique(d, i);
        assert(values.last().0@ != values[i].0@);
    }
}

proof fn lemma_scope_of_absent(values: Seq<(String, Object)>, name: Seq<char>)
    requires
        forall|j: int| 0 <= j < values.len() ==> values[j].0@ != name,
    ensures
        !scope_of(values).contains_key(name),
    decreases values.len(),
{
    if values.len() > 0 {
        let d = values.drop_last();
        assert forall|j: int| 0 <= j < d.len() implies d[j].0@ != name by {
            assert(d[j] == values[j]);
        }
        lemma_scope_of_absent(d, name);
    }
}

proof fn lemma_scope_of_set(values: Seq<(String, Object)>, i: int, entry: (String, Object))
    requires
        names_unique(values),
        0 <= i < values.len(),
        entry.0@ == values[i].0@,
    ensures
        names_unique(values.update(i, entry)),
        scope_of(values.update(i, entry)) == scope_of(values).insert(entry.0@, entry.1@),
    decreases values.len(),
{
    let u = values.update(i, entry);
    assert forall|a: int, b: int| 0 <= a < b < u.len() implies u[a].0@ != u[b].0@ by {
        assert(values[a].0@ != values[b].0@);
    }
    if i == values.len() - 1 {
        assert(u.drop_last() =~= values.drop_last());
        assert forall|j: int| 0 <= j < values.drop_last().len() implies values.drop_last()[j].0@
            != entry.0@ by {
            assert(values.drop_last()[j] == values[j]);
        }
        lemma_scope_of_absent(values.drop_last(), entry.0@);
        assert(scope_of(u) =~= scope_of(values).insert(entry.0@, entry.1@));
    } else {
        let d = values.drop_last();
        assert(u.drop_last() =~= d.update(i, entry));
        assert forall|a: int, b: int| 0 <= a < b < d.len() implies d[a].0@ != d[b].0@ by {
            assert(d[a] == values[a]);
            assert(d[b] == values[b]);
        }
        lemma_scope_of_set(d, i, entry);
        assert(values.last().0@ != entry.0@);
        assert(scope_of(u) =~= scope_of(values).insert(entry.0@, entry.1@));
    }
}

proof fn lemma_scope_of_absent_push(values: Seq<(String, Object)>, entry: (String, Object))
    requires
        names_unique(values),
        forall|j: int| 0 <= j < values.len() ==> values[j].0@ != entry.0@,
    ensures
        names_unique(values.push(entry)),
{
    let p = values.push(entry);
    assert forall|a: int, b: int| 0 <= a < b < p.len() implies p[a].0@ != p[b].0@ by {
        assert(p[a] == values[a]);
    }
}

} // verus!

verus! {

/// A name read right after it is defined gives the value defined; other names read as before.
pub proof fn lemma_get_after_define(
    scopes: Seq<Scope>,
    name: Seq<char>,
    value: ObjectV,
    other: Seq<char>,
)
    requires
        scopes.len() > 0,
    ensures
        lookup(defined(scopes, name, value), name) == Some(value),
        other != name ==> lookup(defined(scopes, name, value), other) == lookup(scopes, other),
{
    let d = defined(scopes, name, value);
    assert(d.drop_first() =~= scopes.drop_first());
}

/// Assignment succeeds exactly for a name that some scope binds; the name then reads as the
/// value assigned, other names read as before, and no scope is added or lost.
pub proof fn lemma_get_after_assign(
    scopes: Seq<Scope>,
    name: Seq<char>,
    value: ObjectV,
    other: Seq<char>,
)
    ensures
        (assigned(scopes, name, value) is Some) == (lookup(scopes, name) is Some),
        assigned(scopes, name, value) matches Some(after) ==> {
            &&& lookup(after, name) == Some(value)
            &&& other != name ==> lookup(after, other) == lookup(scopes, other)
            &&& after.len() == scopes.len()
        },
    decreases scopes.len(),
{
    if scopes.len() > 0 {
        if scopes[0].contains_key(name) {
            let after = scopes.update(0, scopes[0].insert(name, value));
            assert(after.drop_first() =~= scopes.drop_first());
        } else {
            lemma_get_after_assign(scopes.drop_first(), name, value, other);
            match assigned(scopes.drop_first(), name, value) {
                Some(rest) => {
                    let after = seq![scopes[0]] + rest;
                    assert(after.drop_first() =~= rest);
                },
                None => {},
            }
        }
    }
}

/// A name defined in a new inner scope hides what it stands for outside, and leaves the
/// enclosing scopes as they were.
pub proof fn lemma_inner_definition_shadows(outer: Seq<Scope>, name: Seq<char>, value: ObjectV)
    ensures
        ({
            let inner = defined(seq![Map::<Seq<char>, ObjectV>::empty()] + outer, name, value);
            &&& lookup(inner, name) == Some(value)
            &&& inner.drop_first() == outer
        }),
{
    let inner = defined(seq![Map::<Seq<char>, ObjectV>::empty()] + outer, name, value);
    assert(inner.drop_first() =~= outer);
}

} // verus!
