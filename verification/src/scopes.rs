//! A symbol table of nested scopes, for grammars that check names while they parse.

use crate::error::{lemma_name_set_push, name_set, texts};
use crate::tokens::contains_text;
use vstd::prelude::*;

verus! {

/// A stack of scopes, each a set of names; the innermost scope is the last.
#[derive(Debug)]
pub struct ScopeStack {
    pub scopes: Vec<Vec<String>>,
}

/// The name sets of a list of scopes.
pub open spec fn scope_sets(scopes: Seq<Vec<String>>) -> Seq<Set<Seq<char>>> {
    Seq::new(scopes.len(), |i: int| name_set(scopes[i]@))
}

/// Some scope of `sets` holds `name`.
pub open spec fn defined_in(sets: Seq<Set<Seq<char>>>, name: Seq<char>) -> bool {
    exists|i: int| 0 <= i < sets.len() && (#[trigger] sets[i]).contains(name)
}

/// `sets` with `name` added to the innermost scope; unchanged where there is
/// no scope at all.
pub open spec fn with_definition(
    sets: Seq<Set<Seq<char>>>,
    name: Seq<char>,
) -> Seq<Set<Seq<char>>> {
    if sets.len() == 0 {
        sets
    } else {
        sets.update(sets.len() - 1, sets[sets.len() - 1].insert(name))
    }
}

/// `sets` without its innermost scope; the outermost scope is never left.
pub open spec fn without_innermost(sets: Seq<Set<Seq<char>>>) -> Seq<Set<Seq<char>>> {
    if sets.len() > 1 {
        sets.drop_last()
    } else {
        sets
    }
}

impl View for ScopeStack {
    type V = Seq<Set<Seq<char>>>;

    open spec fn view(&self) -> Seq<Set<Seq<char>>> {
        scope_sets(self.scopes@)
    }
}

fn copy_names(names: &Vec<String>) -> (c: Vec<String>)
    ensures
        texts(c@) == texts(names@),
{
    let mut c: Vec<String> = Vec::new();
    let mut i: usize = 0;
    while i < names.len()
        invariant
            i <= names@.len(),
            c@.len() == i,
            forall|k: int| 0 <= k < i ==> (#[trigger] c@[k])@ == names@[k]@,
        decreases names@.len() - i,
    {
        c.push(names[i].clone());
        i += 1;
    }
    assert(texts(c@) =~= texts(names@));
    c
}

impl Clone for ScopeStack {
    fn clone(&self) -> (c: ScopeStack)
        ensures
            c@ == self@,
    {
        let mut scopes: Vec<Vec<String>> = Vec::new();
        let mut i: usize = 0;
        while i < self.scopes.len()
            invariant
                i <= self.scopes@.len(),
                scopes@.len() == i,
                forall|k: int| 0 <= k < i ==> texts(
                    (#[trigger] scopes@[k])@,
                ) == texts(self.scopes@[k]@),
            decreases self.scopes@.len() - i,
        {
            scopes.push(copy_names(&self.scopes[i]));
            i += 1;
        }
        assert(scope_sets(scopes@) =~= scope_sets(self.scopes@));
        ScopeStack { scopes }
    }
}

impl ScopeStack {
    /// A stack with one scope, which is empty.
    pub fn new() -> (s: ScopeStack)
        ensures
            s@ == seq![Set::<Seq<char>>::empty()],
    {
        let mut scopes: Vec<Vec<String>> = Vec::new();
        scopes.push(Vec::new());
        proof {
            assert(name_set(scopes@[0]@) =~= Set::<Seq<char>>::empty());
            assert(scope_sets(scopes@) =~= seq![Set::<Seq<char>>::empty()]);
        }
        ScopeStack { scopes }
    }

    /// Opens a new, empty scope inside the innermost one.
    pub fn enter_scope(&mut self)
        ensures
            final(self)@ == old(self)@.push(Set::<Seq<char>>::empty()),
    {
        self.scopes.push(Vec::new());
        proof {
            assert(name_set(self.scopes@[self.scopes@.len() - 1]@) =~= Set::<Seq<char>>::empty());
            assert(scope_sets(self.scopes@) =~= scope_sets(old(self).scopes@).push(
                Set::<Seq<char>>::empty(),
            ));
        }
    }

    /// Leaves the innermost scope and forgets its names. The outermost scope
    /// is never left.
    pub fn exit_scope(&mut self)
        ensures
            final(self)@ == without_innermost(old(self)@),
    {
        if self.scopes.len() > 1 {
            self.scopes.pop();
            assert(scope_sets(self.scopes@) =~= scope_sets(old(self).scopes@).drop_last());
        }
    }

    /// Adds `name` to the innermost scope.
    pub fn define(&mut self, name: &str)
        ensures
            final(self)@ == with_definition(old(self)@, name@),
    {
        let n = self.scopes.len();
        if n > 0 {
            let mut scope = self.scopes.pop().unwrap();
            let ghost before = scope@;
            if !contains_text(&scope, name) {
                let owned = String::from_str(name);
                proof {
                    lemma_name_set_push(scope@, owned);
                }
                scope.push(owned);
            } else {
                assert(name_set(before).insert(name@) =~= name_set(before));
            }
            self.scopes.push(scope);
            assert(
                scope_sets(self.scopes@) =~= with_definition(scope_sets(old(self).scopes@), name@)
            );
        }
    }

    /// Tells whether some scope, from the innermost outwards, holds `name`.
    pub fn is_defined(&self, name: &str) -> (b: bool)
        ensures
            b == defined_in(self@, name@),
    {
        let mut i: usize = self.scopes.len();
        while i > 0
            invariant
                i <= self.scopes@.len(),
                forall|k: int| i <= k < self.scopes@.len() ==> !(
                    #[trigger] self@[k]
                ).contains(name@),
            decreases i,
        {
            i -= 1;
            if contains_text(&self.scopes[i], name) {
                assert(self@[i as int].contains(name@));
                return true;
            }
        }
        false
    }

    /// The scopes, outermost first, each as the list of its names.
    pub fn scopes(&self) -> (s: &Vec<Vec<String>>)
        ensures
            scope_sets(s@) == self@,
    {
        &self.scopes
    }
}

} // verus!
