use vstd::prelude::*;

use crate::matchers::Matcher;
use crate::state::Label;
use crate::state::State;

verus! {

/// One routing rule: a compiled matcher and the tag of the upstream that
/// queries matching it are sent to. Immutable after construction.
pub struct Rule {
    pub matcher: Matcher,
    pub dest: Label,
}

impl Rule {
    pub fn new(matcher: Matcher, dest: Label) -> (r: Rule)
        ensures
            r.matcher == matcher,
            r.dest == dest,
    {
        Rule { matcher, dest }
    }
}

/// The destination a rule list denotes for a context: the destination of
/// the first rule whose matcher matches, or the default tag if none does.
pub open spec fn route_spec(rules: Seq<Rule>, default_tag: Seq<char>, s: State) -> Seq<char>
    decreases rules,
{
    if rules.len() == 0 {
        default_tag
    } else if rules[0].matcher.matches_spec(s) {
        rules[0].dest@
    } else {
        route_spec(rules.drop_first(), default_tag, s)
    }
}

proof fn lemma_route_spec_skip(rules: Seq<Rule>, default_tag: Seq<char>, s: State, i: int)
    requires
        0 <= i <= rules.len(),
        forall|j: int| 0 <= j < i ==> !rules[j].matcher.matches_spec(s),
    ensures
        route_spec(rules, default_tag, s) == route_spec(rules.skip(i), default_tag, s),
    decreases i,
{
    if i == 0 {
        assert(rules.skip(0) =~= rules);
    } else {
        lemma_route_spec_skip(rules, default_tag, s, i - 1);
        assert(rules.skip(i - 1)[0] == rules[i - 1]);
        assert(rules.skip(i - 1).drop_first() =~= rules.skip(i));
    }
}

/// First-match-wins law: whenever the first rule of a table matches a
/// context, routing yields that rule's destination, whatever the other
/// rules say.
pub proof fn lemma_first_match_wins(rules: Seq<Rule>, default_tag: Seq<char>, s: State)
    requires
        rules.len() > 0,
        rules[0].matcher.matches_spec(s),
    ensures
        route_spec(rules, default_tag, s) == rules[0].dest@,
{
}

/// Default law: when no rule of a table matches a context, routing yields
/// the default tag.
pub proof fn lemma_route_default(rules: Seq<Rule>, default_tag: Seq<char>, s: State)
    requires
        forall|i: int| 0 <= i < rules.len() ==> !rules[i].matcher.matches_spec(s),
    ensures
        route_spec(rules, default_tag, s) == default_tag,
    decreases rules.len(),
{
    if rules.len() > 0 {
        lemma_route_default(rules.drop_first(), default_tag, s);
    }
}

/// An ordered rule table plus one default tag. Order is fixed at
/// construction and significant: evaluation is first-match-wins.
pub struct Table {
    pub rules: Vec<Rule>,
    pub default_tag: Label,
}

impl Table {
    pub fn new(rules: Vec<Rule>, default_tag: Label) -> (t: Table)
        ensures
            t.rules == rules,
            t.default_tag == default_tag,
    {
        Table { rules, default_tag }
    }

    /// Evaluate the table on a context: scan rules in declared order and
    /// return the destination of the first matching rule, or the default
    /// tag when none matches. Total and deterministic.
    pub fn route(&self, s: &State) -> (r: Label)
        ensures
            r@ == route_spec(self.rules@, self.default_tag@, *s),
    {
        let mut i: usize = 0;
        while i < self.rules.len()
            invariant
                i <= self.rules@.len(),
                forall|j: int| 0 <= j < i ==> !self.rules@[j].matcher.matches_spec(*s),
            decreases self.rules@.len() - i,
        {
            if self.rules[i].matcher.matches(s) {
                proof {
                    lemma_route_spec_skip(self.rules@, self.default_tag@, *s, i as int);
                    assert(self.rules@.skip(i as int)[0] == self.rules@[i as int]);
                }
                return self.rules[i].dest.clone();
            }
            i = i + 1;
        }
        proof {
            lemma_route_default(self.rules@, self.default_tag@, *s);
        }
        self.default_tag.clone()
    }
}

} // verus!
