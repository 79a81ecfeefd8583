use vstd::prelude::*;

use crate::state::State;

verus! {

/// A compiled matcher: a pure, total predicate over a query context.
/// Composite matchers own their children outright, so every matcher value
/// is a finite tree and evaluation always terminates.
#[derive(Debug)]
pub enum Matcher {
    /// Matches every context.
    Always,
    /// Matches iff the inner matcher does not.
    Not(Box<Matcher>),
    /// Matches iff at least one child matches; an empty list matches nothing.
    Any(Vec<Matcher>),
    /// Matches iff every child matches; an empty list matches everything.
    All(Vec<Matcher>),
    /// Leaf: matches iff the query's record type equals the given code.
    Qtype(u16),
    /// Leaf: matches iff the query name is one of the listed domains.
    Domain(Vec<String>),
}

impl Matcher {
    /// What a matcher means: the boolean value it denotes on a context.
    pub open spec fn matches_spec(self, s: State) -> bool
        decreases self,
    {
        match self {
            Matcher::Always => true,
            Matcher::Not(m) => !m.matches_spec(s),
            Matcher::Any(cs) => exists|i: int| 0 <= i < cs@.len() && cs@[i].matches_spec(s),
            Matcher::All(cs) => forall|i: int| 0 <= i < cs@.len() ==> cs@[i].matches_spec(s),
            Matcher::Qtype(q) => s.qtype == q,
            Matcher::Domain(ds) => exists|i: int| 0 <= i < ds@.len() && ds@[i]@ == s.qname@,
        }
    }

    /// Evaluate the matcher on a context. Children are visited left to
    /// right; the boolean result is exactly the denoted predicate.
    pub fn matches(&self, s: &State) -> (r: bool)
        ensures
            r == self.matches_spec(*s),
        decreases *self,
    {
        match self {
            Matcher::Always => true,
            Matcher::Not(m) => !m.matches(s),
            Matcher::Any(cs) => {
                let mut i: usize = 0;
                let mut r = false;
                while i < cs.len()
                    invariant
                        i <= cs@.len(),
                        r == exists|j: int| 0 <= j < i && cs@[j].matches_spec(*s),
                        forall|j: int|
                            0 <= j < cs@.len() ==> decreases_to!(*self => cs@[j]),
                    decreases cs@.len() - i,
                {
                    if cs[i].matches(s) {
                        r = true;
                    }
                    i = i + 1;
                }
                r
            },
            Matcher::All(cs) => {
                let mut i: usize = 0;
                let mut r = true;
                while i < cs.len()
                    invariant
                        i <= cs@.len(),
                        r == forall|j: int| 0 <= j < i ==> cs@[j].matches_spec(*s),
                        forall|j: int|
                            0 <= j < cs@.len() ==> decreases_to!(*self => cs@[j]),
                    decreases cs@.len() - i,
                {
                    if !cs[i].matches(s) {
                        r = false;
                    }
                    i = i + 1;
                }
                r
            },
            Matcher::Qtype(q) => *q == s.qtype,
            Matcher::Domain(ds) => {
                let mut i: usize = 0;
                let mut r = false;
                while i < ds.len()
                    invariant
                        i <= ds@.len(),
                        r == exists|j: int| 0 <= j < i && ds@[j]@ == s.qname@,
                    decreases ds@.len() - i,
                {
                    if ds[i] == s.qname {
                        r = true;
                    }
                    i = i + 1;
                }
                r
            },
        }
    }
}

/// Disjunction law: an `Any` matcher matches a context exactly when at
/// least one of its children does; with no children it matches nothing.
pub proof fn lemma_any_semantics(m: Matcher, s: State)
    requires
        m is Any,
    ensures
        m.matches_spec(s) <==> exists|i: int|
            0 <= i < m->Any_0@.len() && m->Any_0@[i].matches_spec(s),
{
}

/// Conjunction law: an `All` matcher matches a context exactly when every
/// one of its children does; with no children it matches everything.
pub proof fn lemma_all_semantics(m: Matcher, s: State)
    requires
        m is All,
    ensures
        m.matches_spec(s) <==> forall|i: int|
            0 <= i < m->All_0@.len() ==> m->All_0@[i].matches_spec(s),
{
}

/// Double negation is identity: negating a matcher twice denotes the same
/// predicate as the matcher itself.
pub proof fn lemma_double_negation(m: Matcher, s: State)
    ensures
        Matcher::Not(Box::new(Matcher::Not(Box::new(m)))).matches_spec(s) == m.matches_spec(s),
{
    assert(Matcher::Not(Box::new(m)).matches_spec(s) == !m.matches_spec(s));
    assert(Matcher::Not(Box::new(Matcher::Not(Box::new(m)))).matches_spec(s) == !Matcher::Not(
        Box::new(m),
    ).matches_spec(s));
}

/// A matcher that matches if any sub matcher matches.
#[derive(Debug)]
pub struct Any(pub Vec<Matcher>);

impl Any {
    /// Create a new any matcher.
    pub fn new(v: Vec<Matcher>) -> (a: Any)
        ensures
            a.0 == v,
    {
        Any(v)
    }

    /// Evaluate: true iff at least one child matches the context.
    pub fn matches(&self, s: &State) -> (r: bool)
        ensures
            r == Matcher::Any(self.0).matches_spec(*s),
    {
        let mut i: usize = 0;
        let mut r = false;
        while i < self.0.len()
            invariant
                i <= self.0@.len(),
                r == exists|j: int| 0 <= j < i && self.0@[j].matches_spec(*s),
            decreases self.0@.len() - i,
        {
            if self.0[i].matches(s) {
                r = true;
            }
            i = i + 1;
        }
        proof {
            lemma_any_semantics(Matcher::Any(self.0), *s);
            assert(Matcher::Any(self.0)->Any_0 == self.0);
        }
        r
    }
}

} // verus!
