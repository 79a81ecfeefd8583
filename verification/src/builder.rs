use vstd::prelude::*;

use crate::matchers::Any;
use crate::matchers::Matcher;
use crate::state::State;

verus! {

/// Failure of matcher compilation.
#[derive(Debug, PartialEq)]
pub enum MatchError {
    /// A configured domain entry is not a usable domain name.
    InvalidDomain(String),
}

/// A domain entry is usable when it is not empty.
pub open spec fn valid_domain(d: Seq<char>) -> bool {
    d.len() > 0
}

/// Declarative configuration for one matcher, mirroring the matcher tree
/// shape. A builder is consumed exactly once by `compile`, which either
/// yields the compiled matcher or fails with the first error found.
#[derive(Debug)]
pub enum MatcherBuilder {
    /// Builds `Matcher::Always`.
    Always,
    /// Builds the negation of what the inner builder builds.
    Not(Box<MatcherBuilder>),
    /// Builds a disjunction of the children, in declared order.
    Any(Vec<MatcherBuilder>),
    /// Builds a conjunction of the children, in declared order.
    All(Vec<MatcherBuilder>),
    /// Builds a record-type leaf.
    Qtype(u16),
    /// Builds a domain-set leaf; every entry must be a valid domain.
    Domain(Vec<String>),
}

impl MatcherBuilder {
    /// A builder compiles successfully iff every domain entry anywhere
    /// inside it is valid.
    pub open spec fn ok_spec(self) -> bool
        decreases self,
    {
        match self {
            MatcherBuilder::Always => true,
            MatcherBuilder::Not(b) => b.ok_spec(),
            MatcherBuilder::Any(bs) => forall|i: int| 0 <= i < bs@.len() ==> bs@[i].ok_spec(),
            MatcherBuilder::All(bs) => forall|i: int| 0 <= i < bs@.len() ==> bs@[i].ok_spec(),
            MatcherBuilder::Qtype(_) => true,
            MatcherBuilder::Domain(ds) => forall|i: int|
                0 <= i < ds@.len() ==> valid_domain(ds@[i]@),
        }
    }

    /// The error a failing compilation reports: children are examined in
    /// declared order and the first failure wins, unchanged.
    pub open spec fn err_spec(self) -> MatchError
        decreases self,
    {
        match self {
            MatcherBuilder::Not(b) => b.err_spec(),
            MatcherBuilder::Any(bs) => first_err_in(bs@),
            MatcherBuilder::All(bs) => first_err_in(bs@),
            MatcherBuilder::Domain(ds) => MatchError::InvalidDomain(first_bad_domain(ds@)),
            _ => arbitrary(),
        }
    }

    /// Structural relation between a builder and the matcher it compiles
    /// to: the same tree shape, with domain lists carried over verbatim.
    pub open spec fn lowers_to(self, m: Matcher) -> bool
        decreases self,
    {
        match (self, m) {
            (MatcherBuilder::Always, Matcher::Always) => true,
            (MatcherBuilder::Not(b), Matcher::Not(mi)) => b.lowers_to(*mi),
            (MatcherBuilder::Any(bs), Matcher::Any(ms)) => bs@.len() == ms@.len()
                && (forall|i: int| 0 <= i < bs@.len() ==> bs@[i].lowers_to(ms@[i])),
            (MatcherBuilder::All(bs), Matcher::All(ms)) => bs@.len() == ms@.len()
                && (forall|i: int| 0 <= i < bs@.len() ==> bs@[i].lowers_to(ms@[i])),
            (MatcherBuilder::Qtype(q), Matcher::Qtype(q2)) => q == q2,
            (MatcherBuilder::Domain(ds), Matcher::Domain(ds2)) => ds2@ == ds@,
            _ => false,
        }
    }

    /// Compile this configuration into a matcher, consuming it. Children
    /// compile sequentially in declared order; the first child failure
    /// aborts the whole compilation and propagates unchanged, and no
    /// partial matcher is ever returned.
    pub fn compile(self) -> (r: Result<Matcher, MatchError>)
        ensures
            self.ok_spec() ==> (r matches Ok(m) && self.lowers_to(m)),
            !self.ok_spec() ==> r == Err::<Matcher, MatchError>(self.err_spec()),
    {
        compile_ref(&self)
    }
}

/// Compilation is semantically deterministic: any two matchers lowered
/// from the same builder denote the same predicate on every context.
pub proof fn lemma_lowering_deterministic(
    b: MatcherBuilder,
    m1: Matcher,
    m2: Matcher,
    s: State,
)
    requires
        b.lowers_to(m1),
        b.lowers_to(m2),
    ensures
        m1.matches_spec(s) == m2.matches_spec(s),
    decreases b,
{
    match b {
        MatcherBuilder::Always => {},
        MatcherBuilder::Qtype(_) => {},
        MatcherBuilder::Not(inner) => {
            lemma_lowering_deterministic(*inner, *m1->Not_0, *m2->Not_0, s);
        },
        MatcherBuilder::Any(bs) => {
            let c1 = m1->Any_0@;
            let c2 = m2->Any_0@;
            assert forall|i: int| 0 <= i < bs@.len() implies c1[i].matches_spec(s)
                == c2[i].matches_spec(s) by {
                lemma_lowering_deterministic(bs@[i], c1[i], c2[i], s);
            }
        },
        MatcherBuilder::All(bs) => {
            let c1 = m1->All_0@;
            let c2 = m2->All_0@;
            assert forall|i: int| 0 <= i < bs@.len() implies c1[i].matches_spec(s)
                == c2[i].matches_spec(s) by {
                lemma_lowering_deterministic(bs@[i], c1[i], c2[i], s);
            }
        },
        MatcherBuilder::Domain(_) => {},
    }
}

/// The error of the first failing builder in a list whose earlier entries
/// all compile.
pub open spec fn first_err_in(bs: Seq<MatcherBuilder>) -> MatchError
    decreases bs,
{
    if bs.len() == 0 {
        arbitrary()
    } else if !bs[0].ok_spec() {
        bs[0].err_spec()
    } else {
        first_err_in(bs.drop_first())
    }
}

/// The first invalid entry in a domain list.
pub open spec fn first_bad_domain(ds: Seq<String>) -> String
    decreases ds,
{
    if ds.len() == 0 {
        arbitrary()
    } else if !valid_domain(ds[0]@) {
        ds[0]
    } else {
        first_bad_domain(ds.drop_first())
    }
}

proof fn lemma_first_err_at(bs: Seq<MatcherBuilder>, i: int)
    requires
        0 <= i < bs.len(),
        forall|j: int| 0 <= j < i ==> bs[j].ok_spec(),
        !bs[i].ok_spec(),
    ensures
        first_err_in(bs) == bs[i].err_spec(),
    decreases i,
{
    if i > 0 {
        lemma_first_err_at(bs.drop_first(), i - 1);
    }
}

proof fn lemma_first_bad_at(ds: Seq<String>, i: int)
    requires
        0 <= i < ds.len(),
        forall|j: int| 0 <= j < i ==> valid_domain(ds[j]@),
        !valid_domain(ds[i]@),
    ensures
        first_bad_domain(ds) == ds[i],
    decreases i,
{
    if i > 0 {
        lemma_first_bad_at(ds.drop_first(), i - 1);
    }
}

fn compile_ref(b: &MatcherBuilder) -> (r: Result<Matcher, MatchError>)
    ensures
        b.ok_spec() ==> (r matches Ok(m) && b.lowers_to(m)),
        !b.ok_spec() ==> r == Err::<Matcher, MatchError>(b.err_spec()),
    decreases *b,
{
    match b {
        MatcherBuilder::Always => Ok(Matcher::Always),
        MatcherBuilder::Qtype(q) => Ok(Matcher::Qtype(*q)),
        MatcherBuilder::Not(inner) => match compile_ref(inner) {
            Ok(m) => Ok(Matcher::Not(Box::new(m))),
            Err(e) => Err(e),
        },
        MatcherBuilder::Any(bs) => match compile_children(bs) {
            Ok(ms) => Ok(Matcher::Any(ms)),
            Err(e) => Err(e),
        },
        MatcherBuilder::All(bs) => match compile_children(bs) {
            Ok(ms) => Ok(Matcher::All(ms)),
            Err(e) => Err(e),
        },
        MatcherBuilder::Domain(ds) => {
            let mut i: usize = 0;
            while i < ds.len()
                invariant
                    b is Domain,
                    b->Domain_0 == *ds,
                    i <= ds@.len(),
                    forall|j: int| 0 <= j < i ==> valid_domain(ds@[j]@),
                decreases ds@.len() - i,
            {
                if ds[i].as_str().is_empty() {
                    proof {
                        lemma_first_bad_at(ds@, i as int);
                    }
                    return Err(MatchError::InvalidDomain(ds[i].clone()));
                }
                i = i + 1;
            }
            let copy = ds.clone();
            proof {
                assert forall|j: int| 0 <= j < ds@.len() implies copy@[j] == ds@[j] by {
                    assert(cloned::<String>(ds@[j], copy@[j]));
                }
                assert(copy@ =~= ds@);
            }
            Ok(Matcher::Domain(copy))
        },
    }
}

fn compile_children(bs: &Vec<MatcherBuilder>) -> (r: Result<Vec<Matcher>, MatchError>)
    ensures
        (forall|i: int| 0 <= i < bs@.len() ==> bs@[i].ok_spec()) ==> (r matches Ok(ms)
            && ms@.len() == bs@.len() && (forall|i: int|
            0 <= i < bs@.len() ==> bs@[i].lowers_to(ms@[i]))),
        !(forall|i: int| 0 <= i < bs@.len() ==> bs@[i].ok_spec()) ==> r == Err::<
            Vec<Matcher>,
            MatchError,
        >(first_err_in(bs@)),
    decreases bs@,
{
    let mut ms: Vec<Matcher> = Vec::new();
    let mut i: usize = 0;
    while i < bs.len()
        invariant
            i <= bs@.len(),
            ms@.len() == i,
            forall|j: int| 0 <= j < i ==> bs@[j].ok_spec(),
            forall|j: int| 0 <= j < i ==> bs@[j].lowers_to(ms@[j]),
        decreases bs@.len() - i,
    {
        match compile_ref(&bs[i]) {
            Ok(m) => {
                ms.push(m);
            },
            Err(e) => {
                proof {
                    lemma_first_err_at(bs@, i as int);
                }
                return Err(e);
            },
        }
        i = i + 1;
    }
    Ok(ms)
}

/// A builder for any matcher
#[derive(Debug)]
pub struct AnyBuilder(pub Vec<MatcherBuilder>);

impl AnyBuilder {
    /// Create a new any builder
    pub fn new() -> (b: AnyBuilder)
        ensures
            b.0@ == Seq::<MatcherBuilder>::empty(),
    {
        AnyBuilder(Vec::new())
    }

    /// Add a matcher builder
    pub fn add_matcher(self, m: MatcherBuilder) -> (b: AnyBuilder)
        ensures
            b.0@ == self.0@.push(m),
    {
        let AnyBuilder(mut v) = self;
        v.push(m);
        AnyBuilder(v)
    }

    /// Compile into an `Any` matcher, consuming the builder. Children
    /// compile in declared order, failing fast on the first child error.
    pub fn compile(self) -> (r: Result<Any, MatchError>)
        ensures
            (forall|i: int| 0 <= i < self.0@.len() ==> self.0@[i].ok_spec()) ==> (r matches Ok(a)
                && a.0@.len() == self.0@.len() && (forall|i: int|
                0 <= i < self.0@.len() ==> self.0@[i].lowers_to(a.0@[i]))),
            !(forall|i: int| 0 <= i < self.0@.len() ==> self.0@[i].ok_spec()) ==> r == Err::<
                Any,
                MatchError,
            >(first_err_in(self.0@)),
    {
        match compile_children(&self.0) {
            Ok(ms) => Ok(Any::new(ms)),
            Err(e) => Err(e),
        }
    }
}

impl Default for AnyBuilder {
    /// An any builder with no children.
    fn default() -> (b: AnyBuilder)
        ensures
            b.0@ == Seq::<MatcherBuilder>::empty(),
    {
        AnyBuilder::new()
    }
}

} // verus!
