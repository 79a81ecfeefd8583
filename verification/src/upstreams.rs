use vstd::prelude::*;
use vstd::set_lib::lemma_len_subset;

use crate::state::Label;
use crate::table::Rule;
use crate::table::Table;

verus! {

/// One named resolution strategy.
#[derive(Debug)]
pub enum Upstream {
    /// Resolve through a bounded pool of clients to one endpoint, with a
    /// per-request timeout in milliseconds.
    Direct { endpoint: String, max_clients: usize, timeout_ms: u64 },
    /// Race the listed upstreams concurrently; the first success wins.
    Hybrid(Vec<Label>),
}

/// One tagged upstream definition, as configured.
#[derive(Debug)]
pub struct UpstreamDef {
    pub tag: Label,
    pub upstream: Upstream,
}

/// Error generated by the upstreams section.
///
/// `MissingTag`, `MultipleDef`, `HybridRecursion`, `EmptyHybrid` and
/// `UnusedUpstreams` are configuration-time defects found while a registry
/// is validated; the remaining variants surface per query at resolution
/// time and carry the underlying failure's message unchanged, so callers
/// can still tell the kinds apart.
#[derive(Debug, PartialEq)]
pub enum UpstreamError {
    /// No upstream definition carries this tag, though a rule destination,
    /// the default tag, or a hybrid member names it.
    MissingTag(Label),
    /// There are multiple upstream definitions of the same tag.
    MultipleDef(Label),
    /// Hybrid upstreams form a reference chain back to the named tag.
    HybridRecursion(Label),
    /// The hybrid upstream with this tag has no destinations to race.
    EmptyHybrid(Label),
    /// Failure reported by the DNS client, forwarded verbatim.
    ClientError(String),
    /// Failure originated from a client pool, forwarded verbatim.
    ClientPoolError(String),
    /// Protocol-level failure, forwarded verbatim.
    ProtoError(String),
    /// The bounded wait for an answer elapsed.
    TimeError(String),
    /// Some of the upstreams are used by no rule, are not the default,
    /// and are raced by no hybrid reachable from those.
    UnusedUpstreams(Vec<Label>),
}

// ---------------------------------------------------------------------
// Spec-level view of a configuration: tags, the hybrid edge graph, and
// reachability along it.
// ---------------------------------------------------------------------

/// Tag `t` has a definition.
pub open spec fn defined(defs: Seq<UpstreamDef>, t: Seq<char>) -> bool {
    exists|i: int| 0 <= i < defs.len() && defs[i].tag@ == t
}

/// Definition `j` reuses a tag already defined earlier in the list.
pub open spec fn dup_at(defs: Seq<UpstreamDef>, j: int) -> bool {
    exists|i: int| 0 <= i < j && defs[i].tag@ == defs[j].tag@
}

/// `b` is one of the hybrid destinations of `u`.
pub open spec fn member_of(u: Upstream, b: Seq<char>) -> bool {
    match u {
        Upstream::Hybrid(ms) => exists|k: int| 0 <= k < ms@.len() && ms@[k]@ == b,
        _ => false,
    }
}

/// The tag graph: an edge from `a` to `b` when a definition tagged `a`
/// is a hybrid listing `b`.
pub open spec fn edge(defs: Seq<UpstreamDef>, a: Seq<char>, b: Seq<char>) -> bool {
    exists|i: int| 0 <= i < defs.len() && defs[i].tag@ == a && member_of(defs[i].upstream, b)
}

/// `x` lies within `n` hybrid edges of some tag in `init`.
pub open spec fn reach_within(
    defs: Seq<UpstreamDef>,
    init: Seq<Seq<char>>,
    x: Seq<char>,
    n: nat,
) -> bool
    decreases n,
{
    init.contains(x) || (n > 0 && exists|m: Seq<char>|
        reach_within(defs, init, m, (n - 1) as nat) && edge(defs, m, x))
}

/// `x` is reachable from `init` along hybrid edges, in any number of steps.
pub open spec fn reachable(defs: Seq<UpstreamDef>, init: Seq<Seq<char>>, x: Seq<char>) -> bool {
    exists|n: nat| reach_within(defs, init, x, n)
}

/// The character sequences of a list of labels.
pub open spec fn views(ls: Seq<Label>) -> Seq<Seq<char>> {
    ls.map_values(|l: Label| l@)
}

/// The list of labels holds the tag `x`.
pub open spec fn label_in(ls: Seq<Label>, x: Seq<char>) -> bool {
    exists|i: int| 0 <= i < ls.len() && ls[i]@ == x
}

/// The tags of all definitions, in order.
pub open spec fn tag_views(defs: Seq<UpstreamDef>) -> Seq<Seq<char>> {
    defs.map_values(|d: UpstreamDef| d.tag@)
}

/// Every hybrid member of every definition is itself defined.
pub open spec fn members_ok(defs: Seq<UpstreamDef>, i: int) -> bool {
    forall|b: Seq<char>| #[trigger] member_of(defs[i].upstream, b) ==> defined(defs, b)
}

// ---------------------------------------------------------------------
// Small exec helpers over labels.
// ---------------------------------------------------------------------

/// Linear scan: does the list hold this tag?
fn contains_label(ls: &Vec<Label>, x: &Label) -> (r: bool)
    ensures
        r == label_in(ls@, x@),
{
    let mut i: usize = 0;
    while i < ls.len()
        invariant
            i <= ls@.len(),
            forall|j: int| 0 <= j < i ==> ls@[j]@ != x@,
        decreases ls@.len() - i,
    {
        if ls[i] == *x {
            return true;
        }
        i = i + 1;
    }
    false
}

/// Linear scan: does any definition carry this tag?
fn defined_exec(defs: &Vec<UpstreamDef>, t: &Label) -> (r: bool)
    ensures
        r == defined(defs@, t@),
{
    let mut i: usize = 0;
    while i < defs.len()
        invariant
            i <= defs@.len(),
            forall|j: int| 0 <= j < i ==> defs@[j].tag@ != t@,
        decreases defs@.len() - i,
    {
        if defs[i].tag == *t {
            return true;
        }
        i = i + 1;
    }
    false
}

// ---------------------------------------------------------------------
// Reachability: proofs and the worklist closure.
// ---------------------------------------------------------------------

proof fn lemma_views_push(ls: Seq<Label>, l: Label)
    ensures
        views(ls.push(l)) =~= views(ls).push(l@),
{
}

proof fn lemma_label_in_views(ls: Seq<Label>)
    ensures
        forall|x: Seq<char>| #![auto] label_in(ls, x) <==> views(ls).contains(x),
{
    assert forall|x: Seq<char>| #![auto] label_in(ls, x) implies views(ls).contains(x) by {
        let i = choose|i: int| 0 <= i < ls.len() && ls[i]@ == x;
        assert(views(ls)[i] == x);
    }
    assert forall|x: Seq<char>| #![auto] views(ls).contains(x) implies label_in(ls, x) by {
        let i = choose|i: int| 0 <= i < views(ls).len() && views(ls)[i] == x;
        assert(ls[i]@ == x);
    }
}

/// How membership changes when a label is appended.
proof fn lemma_label_in_push(ls: Seq<Label>, l: Label)
    ensures
        forall|x: Seq<char>| #![auto] label_in(ls, x) ==> label_in(ls.push(l), x),
        label_in(ls.push(l), l@),
        forall|x: Seq<char>| #![auto]
            label_in(ls.push(l), x) ==> label_in(ls, x) || x == l@,
{
    assert(ls.push(l)[ls.len() as int]@ == l@);
    assert forall|x: Seq<char>| #![auto] label_in(ls, x) implies label_in(ls.push(l), x) by {
        let i = choose|i: int| 0 <= i < ls.len() && ls[i]@ == x;
        assert(ls.push(l)[i]@ == x);
    }
    assert forall|x: Seq<char>| #![auto] label_in(ls.push(l), x) implies label_in(ls, x) || x
        == l@ by {
        let i = choose|i: int| 0 <= i < ls.push(l).len() && ls.push(l)[i]@ == x;
        if i < ls.len() {
            assert(ls[i]@ == x);
        }
    }
}

proof fn lemma_no_dup_push(vs: Seq<Seq<char>>, x: Seq<char>)
    requires
        vs.no_duplicates(),
        !vs.contains(x),
    ensures
        vs.push(x).no_duplicates(),
{
    assert forall|i: int, j: int|
        0 <= i < vs.push(x).len() && 0 <= j < vs.push(x).len() && i != j implies vs.push(x)[i]
        != vs.push(x)[j] by {
        if i == vs.len() {
            if vs.push(x)[j] == x {
                assert(vs.contains(vs[j]));
            }
        } else if j == vs.len() {
            if vs.push(x)[i] == x {
                assert(vs.contains(vs[i]));
            }
        }
    }
}

proof fn lemma_reach_step(defs: Seq<UpstreamDef>, init: Seq<Seq<char>>, a: Seq<char>, b: Seq<char>)
    requires
        reachable(defs, init, a),
        edge(defs, a, b),
    ensures
        reachable(defs, init, b),
{
    let n = choose|n: nat| reach_within(defs, init, a, n);
    assert(reach_within(defs, init, b, n + 1));
}

/// A list that contains all of `init` and is closed under the hybrid
/// edges of its elements contains everything reachable from `init`.
proof fn lemma_closed_complete(
    defs: Seq<UpstreamDef>,
    init: Seq<Seq<char>>,
    r: Seq<Label>,
    x: Seq<char>,
    n: nat,
)
    requires
        forall|y: Seq<char>| init.contains(y) ==> label_in(r, y),
        forall|k: int, b: Seq<char>|
            0 <= k < r.len() && #[trigger] edge(defs, r[k]@, b) ==> label_in(r, b),
        reach_within(defs, init, x, n),
    ensures
        label_in(r, x),
    decreases n,
{
    if !init.contains(x) {
        let m = choose|m: Seq<char>|
            reach_within(defs, init, m, (n - 1) as nat) && edge(defs, m, x);
        lemma_closed_complete(defs, init, r, m, (n - 1) as nat);
        let k = choose|k: int| 0 <= k < r.len() && r[k]@ == m;
        assert(edge(defs, r[k]@, x));
    }
}

/// A duplicate-free list over a finite universe is no longer than the
/// universe.
proof fn lemma_unique_seq_bound(vs: Seq<Seq<char>>, allowed: Seq<Seq<char>>)
    requires
        vs.no_duplicates(),
        forall|k: int| 0 <= k < vs.len() ==> allowed.contains(#[trigger] vs[k]),
    ensures
        vs.len() <= allowed.len(),
{
    broadcast use vstd::seq_lib::seq_to_set_is_finite;

    vs.unique_seq_to_set();
    allowed.lemma_cardinality_of_set();
    assert forall|x: Seq<char>| vs.to_set().contains(x) implies allowed.to_set().contains(x) by {
        assert(vs.contains(x));
    }
    lemma_len_subset(vs.to_set(), allowed.to_set());
}

/// All tags reachable from `init` along hybrid edges: the worklist
/// closure of `init`. Termination rests on every hybrid member being a
/// defined tag, which the structural checks establish before any closure
/// is taken.
fn close_over(defs: &Vec<UpstreamDef>, init: &Vec<Label>) -> (r: Vec<Label>)
    requires
        forall|i: int| 0 <= i < defs@.len() ==> members_ok(defs@, i),
    ensures
        forall|x: Seq<char>| #![auto] label_in(r@, x) <==> reachable(defs@, views(init@), x),
        views(r@).no_duplicates(),
{
    let ghost iv = views(init@);
    let ghost allowed = iv + tag_views(defs@);
    let mut r: Vec<Label> = Vec::new();

    // Seed the worklist with the initial tags, deduplicated.
    let mut s: usize = 0;
    while s < init.len()
        invariant
            s <= init@.len(),
            iv == views(init@),
            views(r@).no_duplicates(),
            forall|k: int| 0 <= k < r@.len() ==> iv.contains(#[trigger] r@[k]@),
            forall|j: int| 0 <= j < s ==> label_in(r@, init@[j]@),
        decreases init@.len() - s,
    {
        if !contains_label(&r, &init[s]) {
            let c = init[s].clone();
            let ghost r0 = r@;
            r.push(c);
            proof {
                lemma_label_in_views(r0);
                lemma_views_push(r0, r@.last());
                lemma_no_dup_push(views(r0), r@.last()@);
                lemma_label_in_push(r0, r@.last());
                assert(iv[s as int] == init@[s as int]@);
            }
        }
        s = s + 1;
    }

    proof {
        assert forall|k: int| 0 <= k < r@.len() implies reachable(defs@, iv, r@[k]@) by {
            assert(reach_within(defs@, iv, r@[k]@, 0));
        }
        assert forall|k: int| 0 <= k < r@.len() implies allowed.contains(r@[k]@) by {
            let j = choose|j: int| 0 <= j < iv.len() && iv[j] == r@[k]@;
            assert(allowed[j] == iv[j]);
        }
        lemma_unique_seq_bound(views(r@), allowed);
    }

    // Worklist: push every hybrid member of every processed tag.
    let mut i: usize = 0;
    while i < r.len()
        invariant
            forall|d: int| 0 <= d < defs@.len() ==> members_ok(defs@, d),
            iv == views(init@),
            allowed == iv + tag_views(defs@),
            i <= r@.len(),
            views(r@).no_duplicates(),
            r@.len() <= allowed.len(),
            forall|k: int| 0 <= k < r@.len() ==> allowed.contains(#[trigger] r@[k]@),
            forall|k: int| 0 <= k < r@.len() ==> reachable(defs@, iv, #[trigger] r@[k]@),
            forall|y: Seq<char>| iv.contains(y) ==> label_in(r@, y),
            forall|k: int, b: Seq<char>|
                0 <= k < i && #[trigger] edge(defs@, r@[k]@, b) ==> label_in(r@, b),
        decreases allowed.len() - r@.len(), r@.len() - i,
    {
        let ghost rlen0 = r@.len();
        let mut j: usize = 0;
        while j < defs.len()
            invariant
                forall|d: int| 0 <= d < defs@.len() ==> members_ok(defs@, d),
                iv == views(init@),
                allowed == iv + tag_views(defs@),
                i < r@.len(),
                rlen0 <= r@.len(),
                j <= defs@.len(),
                views(r@).no_duplicates(),
                r@.len() <= allowed.len(),
                forall|k: int| 0 <= k < r@.len() ==> allowed.contains(#[trigger] r@[k]@),
                forall|k: int| 0 <= k < r@.len() ==> reachable(defs@, iv, #[trigger] r@[k]@),
                forall|y: Seq<char>| iv.contains(y) ==> label_in(r@, y),
                forall|k: int, b: Seq<char>|
                    0 <= k < i && #[trigger] edge(defs@, r@[k]@, b) ==> label_in(r@, b),
                forall|jj: int, b: Seq<char>|
                    0 <= jj < j && defs@[jj].tag@ == r@[i as int]@ && #[trigger] member_of(
                        defs@[jj].upstream,
                        b,
                    ) ==> label_in(r@, b),
            decreases defs@.len() - j,
        {
            if defs[j].tag == r[i] {
                match &defs[j].upstream {
                    Upstream::Hybrid(ms) => {
                        let mut k: usize = 0;
                        while k < ms.len()
                            invariant
                                forall|d: int| 0 <= d < defs@.len() ==> members_ok(defs@, d),
                                iv == views(init@),
                                allowed == iv + tag_views(defs@),
                                i < r@.len(),
                                rlen0 <= r@.len(),
                                j < defs@.len(),
                                k <= ms@.len(),
                                defs@[j as int].upstream is Hybrid,
                                defs@[j as int].upstream->Hybrid_0 == *ms,
                                defs@[j as int].tag@ == r@[i as int]@,
                                views(r@).no_duplicates(),
                                r@.len() <= allowed.len(),
                                forall|kk: int|
                                    0 <= kk < r@.len() ==> allowed.contains(#[trigger] r@[kk]@),
                                forall|kk: int|
                                    0 <= kk < r@.len() ==> reachable(
                                        defs@,
                                        iv,
                                        #[trigger] r@[kk]@,
                                    ),
                                forall|y: Seq<char>| iv.contains(y) ==> label_in(r@, y),
                                forall|kk: int, b: Seq<char>|
                                    0 <= kk < i && #[trigger] edge(defs@, r@[kk]@, b) ==> label_in(
                                        r@,
                                        b,
                                    ),
                                forall|jj: int, b: Seq<char>|
                                    0 <= jj < j && defs@[jj].tag@ == r@[i as int]@
                                        && #[trigger] member_of(defs@[jj].upstream, b) ==> label_in(
                                        r@,
                                        b,
                                    ),
                                forall|kk: int| 0 <= kk < k ==> label_in(r@, ms@[kk]@),
                            decreases ms@.len() - k,
                        {
                            if !contains_label(&r, &ms[k]) {
                                proof {
                                    let m = ms@[k as int]@;
                                    assert(member_of(defs@[j as int].upstream, m));
                                    assert(edge(defs@, r@[i as int]@, m));
                                    lemma_reach_step(defs@, iv, r@[i as int]@, m);
                                    assert(members_ok(defs@, j as int));
                                    assert(defined(defs@, m));
                                    let di = choose|di: int|
                                        0 <= di < defs@.len() && defs@[di].tag@ == m;
                                    assert(tag_views(defs@)[di] == m);
                                    assert(allowed[iv.len() + di] == m);
                                    assert(allowed.contains(m));
                                }
                                let c = ms[k].clone();
                                let ghost r0 = r@;
                                r.push(c);
                                proof {
                                    let m = ms@[k as int]@;
                                    lemma_label_in_views(r0);
                                    lemma_views_push(r0, r@.last());
                                    lemma_no_dup_push(views(r0), r@.last()@);
                                    lemma_label_in_push(r0, r@.last());
                                    lemma_unique_seq_bound(views(r@), allowed);
                                    assert(reachable(defs@, iv, m));
                                }
                            }
                            k = k + 1;
                        }
                    },
                    Upstream::Direct { .. } => {},
                }
            }
            j = j + 1;
        }
        proof {
            assert forall|b: Seq<char>| #[trigger] edge(defs@, r@[i as int]@, b) implies label_in(
                r@,
                b,
            ) by {
                let jj = choose|jj: int|
                    0 <= jj < defs@.len() && defs@[jj].tag@ == r@[i as int]@ && member_of(
                        defs@[jj].upstream,
                        b,
                    );
            }
        }
        i = i + 1;
    }

    proof {
        assert forall|x: Seq<char>| label_in(r@, x) implies reachable(defs@, iv, x) by {}
        assert forall|x: Seq<char>| reachable(defs@, iv, x) implies label_in(r@, x) by {
            let n = choose|n: nat| reach_within(defs@, iv, x, n);
            lemma_closed_complete(defs@, iv, r@, x, n);
        }
    }
    r
}


// ---------------------------------------------------------------------
// Validation stages. Each runs in definition order and reports the first
// defect it finds, so every verdict is deterministic.
// ---------------------------------------------------------------------

/// No tag is defined twice.
pub open spec fn no_dup(defs: Seq<UpstreamDef>) -> bool {
    forall|j: int| 0 <= j < defs.len() ==> !dup_at(defs, j)
}

/// `t` is the tag of the first definition that reuses an earlier tag.
pub open spec fn first_dup_is(defs: Seq<UpstreamDef>, t: Seq<char>) -> bool {
    exists|j: int|
        0 <= j < defs.len() && #[trigger] dup_at(defs, j) && defs[j].tag@ == t && (forall|k: int|
            0 <= k < j ==> !dup_at(defs, k))
}

fn find_duplicate(defs: &Vec<UpstreamDef>) -> (r: Option<Label>)
    ensures
        match r {
            Some(t) => first_dup_is(defs@, t@),
            None => no_dup(defs@),
        },
{
    let mut j: usize = 0;
    while j < defs.len()
        invariant
            j <= defs@.len(),
            forall|k: int| 0 <= k < j ==> !dup_at(defs@, k),
        decreases defs@.len() - j,
    {
        let mut i: usize = 0;
        while i < j
            invariant
                i <= j,
                j < defs@.len(),
                forall|k: int| 0 <= k < j ==> !dup_at(defs@, k),
                forall|k: int| 0 <= k < i ==> defs@[k].tag@ != defs@[j as int].tag@,
            decreases j - i,
        {
            if defs[i].tag == defs[j].tag {
                proof {
                    assert(dup_at(defs@, j as int));
                }
                return Some(defs[j].tag.clone());
            }
            i = i + 1;
        }
        j = j + 1;
    }
    None
}

/// Rule `i` sends queries to a tag with no definition.
pub open spec fn dest_missing_at(defs: Seq<UpstreamDef>, tbl: Table, i: int) -> bool {
    !defined(defs, tbl.rules@[i].dest@)
}

/// In the hybrid member list of definition `i`, `x` is the first member
/// without a definition.
pub open spec fn first_missing_member_is(defs: Seq<UpstreamDef>, i: int, x: Seq<char>) -> bool {
    match defs[i].upstream {
        Upstream::Hybrid(ms) => exists|k: int|
            0 <= k < ms@.len() && !defined(defs, #[trigger] ms@[k]@) && ms@[k]@ == x && (forall|
                k2: int,
            | 0 <= k2 < k ==> defined(defs, ms@[k2]@)),
        _ => false,
    }
}

/// `x` is the first unresolved reference, scanning rule destinations in
/// rule order, then the default tag, then hybrid members in definition
/// order.
pub open spec fn first_missing_is(defs: Seq<UpstreamDef>, tbl: Table, x: Seq<char>) -> bool {
    let rs = tbl.rules@;
    ||| (exists|i: int|
        0 <= i < rs.len() && #[trigger] dest_missing_at(defs, tbl, i) && rs[i].dest@ == x && (
        forall|j: int| 0 <= j < i ==> !dest_missing_at(defs, tbl, j)))
    ||| ((forall|i: int| 0 <= i < rs.len() ==> !dest_missing_at(defs, tbl, i)) && !defined(
        defs,
        tbl.default_tag@,
    ) && x == tbl.default_tag@)
    ||| ((forall|i: int| 0 <= i < rs.len() ==> !dest_missing_at(defs, tbl, i)) && defined(
        defs,
        tbl.default_tag@,
    ) && (exists|i: int|
        0 <= i < defs.len() && #[trigger] first_missing_member_is(defs, i, x) && (forall|j: int|
            0 <= j < i ==> members_ok(defs, j))))
}

/// Every reference resolves: rule destinations, the default tag, and all
/// hybrid members.
pub open spec fn no_missing(defs: Seq<UpstreamDef>, tbl: Table) -> bool {
    &&& forall|i: int| 0 <= i < tbl.rules@.len() ==> !dest_missing_at(defs, tbl, i)
    &&& defined(defs, tbl.default_tag@)
    &&& forall|i: int| 0 <= i < defs.len() ==> members_ok(defs, i)
}

fn find_missing(defs: &Vec<UpstreamDef>, table: &Table) -> (r: Option<Label>)
    ensures
        match r {
            Some(t) => first_missing_is(defs@, *table, t@),
            None => no_missing(defs@, *table),
        },
{
    let mut i: usize = 0;
    while i < table.rules.len()
        invariant
            i <= table.rules@.len(),
            forall|j: int| 0 <= j < i ==> !dest_missing_at(defs@, *table, j),
        decreases table.rules@.len() - i,
    {
        if !defined_exec(defs, &table.rules[i].dest) {
            proof {
                assert(dest_missing_at(defs@, *table, i as int));
            }
            return Some(table.rules[i].dest.clone());
        }
        i = i + 1;
    }
    if !defined_exec(defs, &table.default_tag) {
        return Some(table.default_tag.clone());
    }
    let mut d: usize = 0;
    while d < defs.len()
        invariant
            d <= defs@.len(),
            forall|j: int| 0 <= j < table.rules@.len() ==> !dest_missing_at(defs@, *table, j),
            defined(defs@, table.default_tag@),
            forall|j: int| 0 <= j < d ==> members_ok(defs@, j),
        decreases defs@.len() - d,
    {
        match &defs[d].upstream {
            Upstream::Hybrid(ms) => {
                let mut k: usize = 0;
                while k < ms.len()
                    invariant
                        d < defs@.len(),
                        k <= ms@.len(),
                        defs@[d as int].upstream is Hybrid,
                        defs@[d as int].upstream->Hybrid_0 == *ms,
                        forall|j: int|
                            0 <= j < table.rules@.len() ==> !dest_missing_at(defs@, *table, j),
                        defined(defs@, table.default_tag@),
                        forall|j: int| 0 <= j < d ==> members_ok(defs@, j),
                        forall|k2: int| 0 <= k2 < k ==> defined(defs@, #[trigger] ms@[k2]@),
                    decreases ms@.len() - k,
                {
                    if !defined_exec(defs, &ms[k]) {
                        proof {
                            assert(first_missing_member_is(defs@, d as int, ms@[k as int]@));
                        }
                        return Some(ms[k].clone());
                    }
                    k = k + 1;
                }
                proof {
                    assert forall|b: Seq<char>| #[trigger] member_of(
                        defs@[d as int].upstream,
                        b,
                    ) implies defined(defs@, b) by {
                        let k2 = choose|k2: int| 0 <= k2 < ms@.len() && ms@[k2]@ == b;
                        assert(defined(defs@, ms@[k2]@));
                    }
                    assert(members_ok(defs@, d as int));
                }
            },
            Upstream::Direct { .. } => {
                proof {
                    assert(members_ok(defs@, d as int));
                }
            },
        }
        d = d + 1;
    }
    None
}

/// Definition `i` is a hybrid with no destinations to race.
pub open spec fn empty_hybrid_at(defs: Seq<UpstreamDef>, i: int) -> bool {
    match defs[i].upstream {
        Upstream::Hybrid(ms) => ms@.len() == 0,
        _ => false,
    }
}

/// `t` tags the first empty hybrid in definition order.
pub open spec fn first_empty_hybrid_is(defs: Seq<UpstreamDef>, t: Seq<char>) -> bool {
    exists|i: int|
        0 <= i < defs.len() && #[trigger] empty_hybrid_at(defs, i) && defs[i].tag@ == t && (forall|
            j: int,
        | 0 <= j < i ==> !empty_hybrid_at(defs, j))
}

fn find_empty_hybrid(defs: &Vec<UpstreamDef>) -> (r: Option<Label>)
    ensures
        match r {
            Some(t) => first_empty_hybrid_is(defs@, t@),
            None => forall|i: int| 0 <= i < defs@.len() ==> !empty_hybrid_at(defs@, i),
        },
{
    let mut i: usize = 0;
    while i < defs.len()
        invariant
            i <= defs@.len(),
            forall|j: int| 0 <= j < i ==> !empty_hybrid_at(defs@, j),
        decreases defs@.len() - i,
    {
        match &defs[i].upstream {
            Upstream::Hybrid(ms) => {
                if ms.len() == 0 {
                    proof {
                        assert(empty_hybrid_at(defs@, i as int));
                    }
                    return Some(defs[i].tag.clone());
                }
            },
            Upstream::Direct { .. } => {},
        }
        i = i + 1;
    }
    None
}

/// Definition `i` is a hybrid whose tag is reachable from its own
/// destination set: racing it would recurse.
pub open spec fn cycle_at(defs: Seq<UpstreamDef>, i: int) -> bool {
    match defs[i].upstream {
        Upstream::Hybrid(ms) => reachable(defs, views(ms@), defs[i].tag@),
        _ => false,
    }
}

/// `t` tags the first hybrid in definition order that reaches itself.
pub open spec fn first_cycle_is(defs: Seq<UpstreamDef>, t: Seq<char>) -> bool {
    exists|i: int|
        0 <= i < defs.len() && #[trigger] cycle_at(defs, i) && defs[i].tag@ == t && (forall|j: int|
            0 <= j < i ==> !cycle_at(defs, j))
}

fn find_recursion(defs: &Vec<UpstreamDef>) -> (r: Option<Label>)
    requires
        forall|i: int| 0 <= i < defs@.len() ==> members_ok(defs@, i),
    ensures
        match r {
            Some(t) => first_cycle_is(defs@, t@),
            None => forall|i: int| 0 <= i < defs@.len() ==> !cycle_at(defs@, i),
        },
{
    let mut i: usize = 0;
    while i < defs.len()
        invariant
            forall|d: int| 0 <= d < defs@.len() ==> members_ok(defs@, d),
            i <= defs@.len(),
            forall|j: int| 0 <= j < i ==> !cycle_at(defs@, j),
        decreases defs@.len() - i,
    {
        match &defs[i].upstream {
            Upstream::Hybrid(ms) => {
                let closure = close_over(defs, ms);
                if contains_label(&closure, &defs[i].tag) {
                    proof {
                        assert(cycle_at(defs@, i as int));
                    }
                    return Some(defs[i].tag.clone());
                }
                proof {
                    assert(!cycle_at(defs@, i as int));
                }
            },
            Upstream::Direct { .. } => {
                proof {
                    assert(!cycle_at(defs@, i as int));
                }
            },
        }
        i = i + 1;
    }
    None
}

/// The tags the rule table names directly: every rule destination and
/// the default tag.
pub open spec fn root_views(tbl: Table) -> Seq<Seq<char>> {
    tbl.rules@.map_values(|r: Rule| r.dest@).push(tbl.default_tag@)
}

/// Tag `x` is used: a rule destination or the default tag reaches it
/// along hybrid edges.
pub open spec fn used(defs: Seq<UpstreamDef>, tbl: Table, x: Seq<char>) -> bool {
    reachable(defs, root_views(tbl), x)
}

fn find_unused(defs: &Vec<UpstreamDef>, table: &Table) -> (r: Vec<Label>)
    requires
        forall|i: int| 0 <= i < defs@.len() ==> members_ok(defs@, i),
    ensures
        forall|x: Seq<char>| #![auto]
            label_in(r@, x) <==> (defined(defs@, x) && !used(defs@, *table, x)),
{
    let mut roots: Vec<Label> = Vec::new();
    let mut i: usize = 0;
    while i < table.rules.len()
        invariant
            i <= table.rules@.len(),
            roots@.len() == i,
            forall|j: int| 0 <= j < i ==> roots@[j]@ == table.rules@[j].dest@,
        decreases table.rules@.len() - i,
    {
        roots.push(table.rules[i].dest.clone());
        i = i + 1;
    }
    roots.push(table.default_tag.clone());
    proof {
        assert(views(roots@) =~= root_views(*table));
    }
    let closure = close_over(defs, &roots);
    let mut r: Vec<Label> = Vec::new();
    let mut d: usize = 0;
    while d < defs.len()
        invariant
            d <= defs@.len(),
            forall|x: Seq<char>| #![auto]
                label_in(closure@, x) <==> used(defs@, *table, x),
            forall|x: Seq<char>| #![auto]
                label_in(r@, x) ==> (defined(defs@, x) && !used(defs@, *table, x)),
            forall|j: int|
                0 <= j < d ==> (used(defs@, *table, #[trigger] defs@[j].tag@) || label_in(
                    r@,
                    defs@[j].tag@,
                )),
        decreases defs@.len() - d,
    {
        if !contains_label(&closure, &defs[d].tag) {
            if !contains_label(&r, &defs[d].tag) {
                let ghost r0 = r@;
                r.push(defs[d].tag.clone());
                proof {
                    lemma_label_in_push(r0, r@.last());
                }
            }
        }
        d = d + 1;
    }
    proof {
        assert forall|x: Seq<char>| defined(defs@, x) && !used(defs@, *table, x) implies label_in(
            r@,
            x,
        ) by {
            let j = choose|j: int| 0 <= j < defs@.len() && defs@[j].tag@ == x;
            assert(used(defs@, *table, defs@[j].tag@) || label_in(r@, defs@[j].tag@));
        }
    }
    r
}

// ---------------------------------------------------------------------
// The registry.
// ---------------------------------------------------------------------

/// What resolving a tag requires of the caller: the action side of one
/// resolution step.
#[derive(Debug)]
pub enum ResolveStep {
    /// Exchange the query with this endpoint through the tag's client
    /// pool, bounded by this timeout in milliseconds.
    Exchange { endpoint: String, max_clients: usize, timeout_ms: u64 },
    /// Dispatch the query to every one of these tags concurrently; the
    /// first success wins and the rest are cancelled.
    Race(Vec<Label>),
    /// The tag has no definition: resolution fails with `MissingTag`.
    Undefined,
}

/// The validated upstream registry: the tag-indexed upstream definitions
/// a router serves queries from. Construction validates the whole
/// configuration; no partially valid registry is ever produced.
#[derive(Debug)]
pub struct Upstreams {
    pub defs: Vec<UpstreamDef>,
}

impl Upstreams {
    /// Structural invariant: unique tags, every hybrid member defined,
    /// no empty hybrid, and no hybrid able to reach its own tag.
    pub open spec fn wf(self) -> bool {
        &&& no_dup(self.defs@)
        &&& forall|i: int| 0 <= i < self.defs@.len() ==> members_ok(self.defs@, i)
        &&& forall|i: int| 0 <= i < self.defs@.len() ==> !empty_hybrid_at(self.defs@, i)
        &&& forall|i: int| 0 <= i < self.defs@.len() ==> !cycle_at(self.defs@, i)
    }

    /// Validate a configuration against the rule table it will serve,
    /// and build the registry. The checks run in a fixed order —
    /// duplicate tags, unresolved references, empty hybrids, hybrid
    /// recursion, then unused upstreams — and the first defect found is
    /// the one reported, with its tag. Unused upstreams are reported
    /// last and as their own kind, so the caller can choose whether to
    /// treat them as fatal.
    pub fn new(defs: Vec<UpstreamDef>, table: &Table) -> (r: Result<Upstreams, UpstreamError>)
        ensures
            match r {
                Result::Ok(u) => {
                    &&& u.defs@ == defs@
                    &&& u.wf()
                    &&& no_missing(defs@, *table)
                    &&& forall|x: Seq<char>| defined(defs@, x) ==> used(defs@, *table, x)
                },
                Result::Err(e) => match e {
                    UpstreamError::MultipleDef(t) => first_dup_is(defs@, t@),
                    UpstreamError::MissingTag(t) => no_dup(defs@) && first_missing_is(
                        defs@,
                        *table,
                        t@,
                    ),
                    UpstreamError::EmptyHybrid(t) => no_dup(defs@) && no_missing(defs@, *table)
                        && first_empty_hybrid_is(defs@, t@),
                    UpstreamError::HybridRecursion(t) => no_dup(defs@) && no_missing(
                        defs@,
                        *table,
                    ) && (forall|i: int| 0 <= i < defs@.len() ==> !empty_hybrid_at(defs@, i))
                        && first_cycle_is(defs@, t@),
                    UpstreamError::UnusedUpstreams(v) => {
                        &&& no_dup(defs@)
                        &&& no_missing(defs@, *table)
                        &&& forall|i: int| 0 <= i < defs@.len() ==> !empty_hybrid_at(defs@, i)
                        &&& forall|i: int| 0 <= i < defs@.len() ==> !cycle_at(defs@, i)
                        &&& v@.len() > 0
                        &&& forall|x: Seq<char>| #![auto]
                            label_in(v@, x) <==> (defined(defs@, x) && !used(defs@, *table, x))
                    },
                    _ => false,
                },
            },
    {
        match find_duplicate(&defs) {
            Some(t) => {
                return Err(UpstreamError::MultipleDef(t));
            },
            None => {},
        }
        match find_missing(&defs, table) {
            Some(t) => {
                return Err(UpstreamError::MissingTag(t));
            },
            None => {},
        }
        match find_empty_hybrid(&defs) {
            Some(t) => {
                return Err(UpstreamError::EmptyHybrid(t));
            },
            None => {},
        }
        match find_recursion(&defs) {
            Some(t) => {
                return Err(UpstreamError::HybridRecursion(t));
            },
            None => {},
        }
        let unused = find_unused(&defs, table);
        if unused.len() > 0 {
            return Err(UpstreamError::UnusedUpstreams(unused));
        }
        proof {
            assert forall|x: Seq<char>| defined(defs@, x) implies used(defs@, *table, x) by {
                assert(!label_in(unused@, x));
            }
        }
        Ok(Upstreams { defs })
    }

    /// Decide how the named upstream resolves: a pooled exchange with
    /// one endpoint, a first-success-wins race over other tags, or a
    /// missing-tag failure. The caller performs the network side of the
    /// step it is handed.
    pub fn plan(&self, tag: &Label) -> (p: ResolveStep)
        ensures
            match p {
                ResolveStep::Exchange { endpoint, max_clients, timeout_ms } => exists|i: int|
                    0 <= i < self.defs@.len() && self.defs@[i].tag@ == tag@
                        && self.defs@[i].upstream == (Upstream::Direct {
                        endpoint,
                        max_clients,
                        timeout_ms,
                    }),
                ResolveStep::Race(ms) => exists|i: int|
                    0 <= i < self.defs@.len() && self.defs@[i].tag@ == tag@
                        && self.defs@[i].upstream is Hybrid && self.defs@[i].upstream->Hybrid_0@
                        == ms@,
                ResolveStep::Undefined => !defined(self.defs@, tag@),
            },
    {
        match self.lookup(tag) {
            None => ResolveStep::Undefined,
            Some(u) => match u {
                Upstream::Direct { endpoint, max_clients, timeout_ms } => ResolveStep::Exchange {
                    endpoint: endpoint.clone(),
                    max_clients: *max_clients,
                    timeout_ms: *timeout_ms,
                },
                Upstream::Hybrid(ms) => ResolveStep::Race(ms.clone()),
            },
        }
    }

    /// Look a tag up in the registry.
    pub fn lookup(&self, tag: &Label) -> (r: Option<&Upstream>)
        ensures
            match r {
                Some(u) => exists|i: int|
                    0 <= i < self.defs@.len() && self.defs@[i].tag@ == tag@ && *u
                        == self.defs@[i].upstream,
                None => !defined(self.defs@, tag@),
            },
    {
        let mut i: usize = 0;
        while i < self.defs.len()
            invariant
                i <= self.defs@.len(),
                forall|j: int| 0 <= j < i ==> self.defs@[j].tag@ != tag@,
            decreases self.defs@.len() - i,
        {
            if self.defs[i].tag == *tag {
                return Some(&self.defs[i].upstream);
            }
            i = i + 1;
        }
        None
    }
}

} // verus!
