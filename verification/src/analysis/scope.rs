//! Scopes: sets of names, nested in a stack whose bottom is the global scope.

use vstd::hash_set::StringHashSet;
use vstd::prelude::*;
use vstd::string::*;

verus! {

/// The names that the global scope knows from the start: the five reserved
/// words.
pub open spec fn global_names() -> Set<Seq<char>> {
    set!["let"@, "if"@, "else"@, "true"@, "false"@]
}

/// The global scope as it is before any text has been checked.
pub fn generate_globals() -> (known_words: StringHashSet)
    ensures
        known_words@ == global_names(),
{
    let mut known_words = StringHashSet::new();
    known_words.insert("let".to_owned());
    known_words.insert("if".to_owned());
    known_words.insert("else".to_owned());
    known_words.insert("true".to_owned());
    known_words.insert("false".to_owned());
    assert(known_words@ =~= global_names());
    known_words
}

/// Whether some scope of the stack holds `name`.
pub open spec fn known(scopes: Seq<Set<Seq<char>>>, name: Seq<char>) -> bool {
    exists|i: int| 0 <= i < scopes.len() && (#[trigger] scopes[i]).contains(name)
}

/// The stack with `name` added to its innermost scope.
pub open spec fn declared(scopes: Seq<Set<Seq<char>>>, name: Seq<char>) -> Seq<Set<Seq<char>>> {
    scopes.update(scopes.len() - 1, scopes.last().insert(name))
}

/// A stack of scopes, the innermost last. The global scope is its bottom and
/// never leaves, so the stack is never empty.
pub struct ScopeStack {
    global: StringHashSet,
    nested: Vec<StringHashSet>,
}

impl View for ScopeStack {
    type V = Seq<Set<Seq<char>>>;

    closed spec fn view(&self) -> Seq<Set<Seq<char>>> {
        seq![self.global@] + self.nested@.map_values(|scope: StringHashSet| scope@)
    }
}

impl ScopeStack {
    /// A stack that holds the global scope alone, with the reserved words in
    /// it.
    pub fn new() -> (stack: Self)
        ensures
            stack@ == seq![global_names()],
    {
        let stack = ScopeStack { global: generate_globals(), nested: Vec::new() };
        assert(stack@ =~= seq![global_names()]);
        stack
    }

    /// A stack is never empty.
    pub proof fn lemma_never_empty(&self)
        ensures
            self@.len() >= 1,
    {
    }

    /// How many scopes lie above the global scope.
    pub fn nesting(&self) -> (n: usize)
        ensures
            n == self@.len() - 1,
    {
        self.nested.len()
    }

    /// Whether the innermost scope holds `name`.
    pub fn innermost_contains(&self, name: &str) -> (found: bool)
        ensures
            found == self@.last().contains(name@),
    {
        let n = self.nested.len();
        if n == 0 {
            self.global.contains(name)
        } else {
            self.nested[n - 1].contains(name)
        }
    }

    /// Whether any scope of the stack holds `name`.
    pub fn contains(&self, name: &str) -> (found: bool)
        ensures
            found == known(self@, name@),
    {
        if self.global.contains(name) {
            assert(self@[0].contains(name@));
            return true;
        }
        let mut i: usize = 0;
        while i < self.nested.len()
            invariant
                i <= self.nested.len(),
                !self.global@.contains(name@),
                forall|j: int| 0 <= j < i ==> !(#[trigger] self.nested@[j])@.contains(name@),
            decreases self.nested.len() - i,
        {
            if self.nested[i].contains(name) {
                assert(self@[i + 1].contains(name@));
                return true;
            }
            i += 1;
        }
        assert forall|j: int| 0 <= j < self@.len() implies !(#[trigger] self@[j]).contains(
            name@,
        ) by {
            if j > 0 {
                assert(self@[j] == self.nested@[j - 1]@);
            }
        }
        false
    }

    /// Adds `name` to the innermost scope unless it is there already. Tells
    /// whether it was added: a name that is there is left as it is.
    pub fn declare(&mut self, name: String) -> (added: bool)
        ensures
            added == !old(self)@.last().contains(name@),
            final(self)@ == declared(old(self)@, name@),
    {
        match self.nested.pop() {
            None => {
                let added = self.global.insert(name);
                assert(self@ =~= declared(old(self)@, name@));
                added
            },
            Some(innermost) => {
                let mut innermost = innermost;
                let added = innermost.insert(name);
                self.nested.push(innermost);
                assert(self@ =~= declared(old(self)@, name@));
                added
            },
        }
    }

    /// Enters a scope: it becomes the innermost.
    pub fn push(&mut self, scope: StringHashSet)
        ensures
            final(self)@ == old(self)@.push(scope@),
    {
        self.nested.push(scope);
        assert(self@ =~= old(self)@.push(scope@));
    }

    /// Leaves the innermost scope and tells that it did. The global scope
    /// stays: with nothing above it the stack is left as it is.
    pub fn pop(&mut self) -> (left: bool)
        ensures
            left == (old(self)@.len() > 1),
            final(self)@ == if left {
                old(self)@.drop_last()
            } else {
                old(self)@
            },
    {
        match self.nested.pop() {
            None => {
                assert(self@ =~= old(self)@);
                false
            },
            Some(_) => {
                assert(self@ =~= old(self)@.drop_last());
                true
            },
        }
    }
}

} // verus!
