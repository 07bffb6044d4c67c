//! The registry as a graph: the mathematical model that validation is stated over.
//!
//! A topology lists the definitions in the order they were given. Each one is
//! a label and a shape: a leaf, or a hybrid with its member labels in order.
//! A hybrid has an edge to each of its members.

use crate::error::ErrorView;
use vstd::prelude::*;

verus! {

/// What validation reads of an upstream.
pub enum Shape {
    /// Resolves by itself; ends a walk.
    Leaf,
    /// Resolves through these members, named by label and in this order.
    Hybrid(Seq<Seq<char>>),
}

/// The definitions of a registry, in the order they were given.
pub type Topology = Seq<(Seq<char>, Shape)>;

/// The labels that `t` defines, in the order of definition.
pub open spec fn labels(t: Topology) -> Seq<Seq<char>> {
    t.map_values(|d: (Seq<char>, Shape)| d.0)
}

/// Whether `t` defines `label`.
pub open spec fn defines(t: Topology, label: Seq<char>) -> bool {
    labels(t).contains(label)
}

/// The shape that `t` gives to `label`.
pub open spec fn shape_of(t: Topology, label: Seq<char>) -> Shape
    recommends
        defines(t, label),
{
    t[labels(t).index_of(label)].1
}

/// The members of `label` in `t`: none for a leaf or an unknown label.
pub open spec fn members(t: Topology, label: Seq<char>) -> Seq<Seq<char>> {
    if defines(t, label) {
        match shape_of(t, label) {
            Shape::Leaf => Seq::empty(),
            Shape::Hybrid(ms) => ms,
        }
    } else {
        Seq::empty()
    }
}

/// The defined labels that a walk has not yet seen.
pub open spec fn unseen(t: Topology, seen: Set<Seq<char>>) -> Set<Seq<char>> {
    labels(t).to_set().difference(seen)
}

/// The depth-first walk that validation performs. `pending` holds the labels
/// still to visit, the next one first; `seen` holds those visited since the
/// walk left its root. The walk stops at the first label that was seen
/// before, that nothing defines, or that is a hybrid without members, and
/// otherwise ends with every label it has seen.
pub open spec fn walk(t: Topology, seen: Set<Seq<char>>, pending: Seq<Seq<char>>) -> Result<
    Set<Seq<char>>,
    ErrorView,
>
    decreases unseen(t, seen).len(),
    via walk_decreases
{
    if pending.len() == 0 {
        Ok(seen)
    } else {
        let label = pending[0];
        if seen.contains(label) {
            Err(ErrorView::HybridRecursion(label))
        } else if !defines(t, label) {
            Err(ErrorView::MissingTag(label))
        } else {
            match shape_of(t, label) {
                Shape::Leaf => walk(t, seen.insert(label), pending.drop_first()),
                Shape::Hybrid(ms) => if ms.len() == 0 {
                    Err(ErrorView::EmptyHybrid(label))
                } else {
                    walk(t, seen.insert(label), ms + pending.drop_first())
                },
            }
        }
    }
}

#[via_fn]
proof fn walk_decreases(t: Topology, seen: Set<Seq<char>>, pending: Seq<Seq<char>>) {
    if pending.len() != 0 {
        let label = pending[0];
        if !seen.contains(label) && defines(t, label) {
            lemma_visit_shrinks_unseen(t, seen, label);
        }
    }
}

/// Visiting a defined label for the first time leaves fewer labels unseen.
pub proof fn lemma_visit_shrinks_unseen(t: Topology, seen: Set<Seq<char>>, label: Seq<char>)
    requires
        defines(t, label),
        !seen.contains(label),
    ensures
        unseen(t, seen.insert(label)).len() < unseen(t, seen).len(),
{
    vstd::seq_lib::seq_to_set_is_finite(labels(t));
    labels(t).to_set().lemma_set_insert_diff_decreases(seen, label);
}

/// A successful walk keeps what it had seen and has seen every label that
/// was pending.
pub proof fn lemma_walk_grows(t: Topology, seen: Set<Seq<char>>, pending: Seq<Seq<char>>)
    requires
        walk(t, seen, pending) is Ok,
    ensures
        seen.subset_of(walk(t, seen, pending)->Ok_0),
        forall|i: int|
            0 <= i < pending.len() ==> walk(t, seen, pending)->Ok_0.contains(#[trigger] pending[i]),
    decreases unseen(t, seen).len(),
{
    if pending.len() != 0 {
        let label = pending[0];
        let rest = pending.drop_first();
        let next = match shape_of(t, label) {
            Shape::Leaf => rest,
            Shape::Hybrid(ms) => ms + rest,
        };
        let offset = next.len() - rest.len();
        lemma_visit_shrinks_unseen(t, seen, label);
        lemma_walk_grows(t, seen.insert(label), next);
        let end = walk(t, seen, pending)->Ok_0;
        assert(end.contains(label));
        assert forall|i: int| 0 <= i < pending.len() implies end.contains(
            #[trigger] pending[i],
        ) by {
            if i > 0 {
                assert(pending[i] == next[offset + i - 1]);
            }
        }
    }
}

/// Walking `first + after` is walking `first` and, where that succeeds,
/// walking `after` from what it has seen.
pub proof fn lemma_walk_then(
    t: Topology,
    seen: Set<Seq<char>>,
    first: Seq<Seq<char>>,
    after: Seq<Seq<char>>,
)
    ensures
        walk(t, seen, first + after) == (match walk(t, seen, first) {
            Ok(s) => walk(t, s, after),
            Err(e) => Err(e),
        }),
    decreases unseen(t, seen).len(),
{
    if first.len() == 0 {
        assert(first + after =~= after);
    } else {
        let label = first[0];
        assert((first + after)[0] == label);
        assert((first + after).drop_first() =~= first.drop_first() + after);
        if !seen.contains(label) && defines(t, label) {
            lemma_visit_shrinks_unseen(t, seen, label);
            match shape_of(t, label) {
                Shape::Leaf => {
                    lemma_walk_then(t, seen.insert(label), first.drop_first(), after);
                },
                Shape::Hybrid(ms) => {
                    if ms.len() != 0 {
                        assert(ms + (first.drop_first() + after) =~= (ms + first.drop_first())
                            + after);
                        lemma_walk_then(t, seen.insert(label), ms + first.drop_first(), after);
                    }
                },
            }
        }
    }
}

/// The walk from the `k`-th definition of `t`, taken as a root.
pub open spec fn root_walk(t: Topology, k: int) -> Result<Set<Seq<char>>, ErrorView> {
    walk(t, Set::empty(), seq![t[k].0])
}

/// Whether one of the first `j` definitions of `t` defines `label`.
pub open spec fn defined_before(t: Topology, j: int, label: Seq<char>) -> bool {
    exists|i: int| 0 <= i < j && (#[trigger] t[i]).0 == label
}

/// Whether the `j`-th definition repeats the label of an earlier one.
pub open spec fn duplicated_at(t: Topology, j: int) -> bool {
    defined_before(t, j, t[j].0)
}

/// Whether `j` is the first definition that repeats an earlier label.
pub open spec fn first_duplicate(t: Topology, j: int) -> bool {
    &&& 0 <= j < t.len()
    &&& duplicated_at(t, j)
    &&& forall|i: int| 0 <= i < j ==> !#[trigger] duplicated_at(t, i)
}

/// Whether `k` is the first definition whose walk as a root fails.
pub open spec fn first_failing_root(t: Topology, k: int) -> bool {
    &&& 0 <= k < t.len()
    &&& root_walk(t, k) is Err
    &&& forall|i: int| 0 <= i < k ==> (#[trigger] root_walk(t, i)) is Ok
}

/// The topologies that a registry can be built from: no label is defined
/// twice, and the walk from every definition succeeds.
pub open spec fn accepted(t: Topology) -> bool {
    &&& labels(t).no_duplicates()
    &&& forall|k: int| 0 <= k < t.len() ==> (#[trigger] root_walk(t, k)) is Ok
}

/// The error that a topology is refused with. A repeated label is reported
/// before anything else, the first repetition first; after that the roots are
/// walked in the order of definition, and the first failure is reported.
pub open spec fn rejects_with(t: Topology, e: ErrorView) -> bool {
    ||| exists|j: int| #[trigger]
        first_duplicate(t, j) && e == ErrorView::MultipleDefinition(t[j].0)
    ||| labels(t).no_duplicates() && exists|k: int| #[trigger]
        first_failing_root(t, k) && root_walk(t, k) == Err::<Set<Seq<char>>, ErrorView>(e)
}

/// Whether `to` is a member of the hybrid `from`.
pub open spec fn edge(t: Topology, from: Seq<char>, to: Seq<char>) -> bool {
    members(t, from).contains(to)
}

/// Whether `p` follows edges of `t` from its first label to its last.
pub open spec fn is_path(t: Topology, p: Seq<Seq<char>>) -> bool {
    &&& p.len() >= 1
    &&& forall|i: int| 0 <= i < p.len() - 1 ==> edge(t, #[trigger] p[i], p[i + 1])
}

/// No path of one edge or more leads from a label back to it.
pub open spec fn acyclic(t: Topology) -> bool {
    forall|p: Seq<Seq<char>>| #[trigger] is_path(t, p) && p.len() >= 2 ==> p.first() != p.last()
}

/// Every member of every hybrid is defined.
pub open spec fn closed(t: Topology) -> bool {
    forall|from: Seq<char>, to: Seq<char>| #[trigger] edge(t, from, to) ==> defines(t, to)
}

/// Every hybrid has a member.
pub open spec fn hybrids_inhabited(t: Topology) -> bool {
    forall|k: int|
        0 <= k < t.len() ==> match (#[trigger] t[k]).1 {
            Shape::Leaf => true,
            Shape::Hybrid(ms) => ms.len() > 0,
        }
}

/// Where the walk from `x` succeeds, no path from `x` ends in a label seen
/// before the walk, nor comes back to `x`, and every path from `x` ends in a
/// defined label.
pub proof fn lemma_walk_bars_return(
    t: Topology,
    seen: Set<Seq<char>>,
    x: Seq<char>,
    p: Seq<Seq<char>>,
)
    requires
        walk(t, seen, seq![x]) is Ok,
        is_path(t, p),
        p[0] == x,
    ensures
        !seen.contains(p.last()),
        p.len() >= 2 ==> p.last() != x,
        defines(t, p.last()),
    decreases p.len(),
{
    let root = seq![x];
    assert(root[0] == x);
    assert(root.drop_first() =~= Seq::<Seq<char>>::empty());
    if p.len() >= 2 {
        let m = p[1];
        assert(edge(t, p[0], p[1]));
        let ms = members(t, x);
        let j = ms.index_of(m);
        let seen1 = seen.insert(x);
        let head = ms.take(j);
        let tail = ms.skip(j + 1);
        assert(ms + root.drop_first() =~= ms);
        assert(ms =~= head + (seq![m] + tail));
        assert(walk(t, seen, root) == walk(t, seen1, ms));
        lemma_walk_then(t, seen1, head, seq![m] + tail);
        let reached = walk(t, seen1, head)->Ok_0;
        lemma_walk_then(t, reached, seq![m], tail);
        lemma_walk_grows(t, seen1, head);
        let q = p.skip(1);
        assert(is_path(t, q)) by {
            assert forall|i: int| 0 <= i < q.len() - 1 implies edge(
                t,
                #[trigger] q[i],
                q[i + 1],
            ) by {
                assert(edge(t, p[i + 1], p[i + 2]));
            }
        }
        lemma_walk_bars_return(t, reached, m, q);
        assert(q.last() == p.last());
        assert(reached.contains(x));
    }
}

/// A topology that is accepted has every member of every hybrid defined,
/// gives every hybrid a member, and has no cycle among its hybrids.
pub proof fn lemma_accepted_is_sound(t: Topology)
    requires
        accepted(t),
    ensures
        closed(t),
        hybrids_inhabited(t),
        acyclic(t),
{
    let ls = labels(t);
    assert forall|from: Seq<char>, to: Seq<char>| #[trigger] edge(t, from, to) implies defines(
        t,
        to,
    ) by {
        let k = ls.index_of(from);
        assert(t[k].0 == from);
        assert(root_walk(t, k) is Ok);
        let p = seq![from, to];
        assert(is_path(t, p));
        lemma_walk_bars_return(t, Set::empty(), from, p);
    }
    assert forall|k: int| 0 <= k < t.len() implies match (#[trigger] t[k]).1 {
        Shape::Leaf => true,
        Shape::Hybrid(ms) => ms.len() > 0,
    } by {
        let root = seq![t[k].0];
        assert(root[0] == t[k].0);
        assert(ls[k] == t[k].0);
        assert(ls.index_of(t[k].0) == k);
        assert(root_walk(t, k) is Ok);
    }
    assert forall|p: Seq<Seq<char>>| #[trigger] is_path(t, p) && p.len() >= 2 implies p.first()
        != p.last() by {
        let x = p[0];
        assert(edge(t, p[0], p[1]));
        let k = ls.index_of(x);
        assert(t[k].0 == x);
        assert(root_walk(t, k) is Ok);
        lemma_walk_bars_return(t, Set::empty(), x, p);
    }
}

/// What the error of a failed walk says of the label it names: a missing
/// tag is not defined, an empty hybrid is defined as a hybrid without
/// members, and a label met again was seen before the walk or is defined.
pub open spec fn names_its_cause(t: Topology, seen: Set<Seq<char>>, e: ErrorView) -> bool {
    match e {
        ErrorView::MissingTag(l) => !defines(t, l),
        ErrorView::EmptyHybrid(l) => defines(t, l) && shape_of(t, l) == Shape::Hybrid(
            Seq::empty(),
        ),
        ErrorView::HybridRecursion(l) => seen.contains(l) || defines(t, l),
        _ => false,
    }
}

/// A walk that fails names the label at fault, with the error that tells
/// what is wrong with it.
pub proof fn lemma_fault_names_its_cause(t: Topology, seen: Set<Seq<char>>, pending: Seq<Seq<char>>)
    requires
        walk(t, seen, pending) is Err,
    ensures
        names_its_cause(t, seen, walk(t, seen, pending)->Err_0),
    decreases unseen(t, seen).len(),
{
    let label = pending[0];
    if !seen.contains(label) && defines(t, label) {
        lemma_visit_shrinks_unseen(t, seen, label);
        match shape_of(t, label) {
            Shape::Leaf => {
                lemma_fault_names_its_cause(t, seen.insert(label), pending.drop_first());
            },
            Shape::Hybrid(ms) => {
                if ms.len() != 0 {
                    lemma_fault_names_its_cause(t, seen.insert(label), ms + pending.drop_first());
                } else {
                    assert(ms =~= Seq::empty());
                }
            },
        }
    }
}

/// The error that a topology is refused with names a label that is at
/// fault: one defined twice, one that nothing defines, a hybrid without
/// members, or a defined label that a walk has met again.
pub proof fn lemma_refusal_names_its_cause(t: Topology, e: ErrorView)
    requires
        rejects_with(t, e),
    ensures
        match e {
            ErrorView::MultipleDefinition(l) => exists|i: int, j: int|
                0 <= i < j < t.len() && (#[trigger] t[i]).0 == l && (#[trigger] t[j]).0 == l,
            ErrorView::HybridRecursion(l) => defines(t, l),
            _ => names_its_cause(t, Set::empty(), e),
        },
{
    if exists|j: int| #[trigger]
        first_duplicate(t, j) && e == ErrorView::MultipleDefinition(t[j].0) {
        let j = choose|j: int| #[trigger]
            first_duplicate(t, j) && e == ErrorView::MultipleDefinition(t[j].0);
        let i = choose|i: int| 0 <= i < j && (#[trigger] t[i]).0 == t[j].0;
        assert(t[i].0 == t[j].0);
    } else {
        let k = choose|k: int| #[trigger]
            first_failing_root(t, k) && root_walk(t, k) == Err::<Set<Seq<char>>, ErrorView>(e);
        lemma_fault_names_its_cause(t, Set::empty(), seq![t[k].0]);
    }
}

/// A topology is refused with one error at most, and it is refused exactly
/// when it is not accepted.
pub proof fn lemma_verdict_is_decided(t: Topology, e1: ErrorView, e2: ErrorView)
    ensures
        rejects_with(t, e1) && rejects_with(t, e2) ==> e1 == e2,
        rejects_with(t, e1) ==> !accepted(t),
        !accepted(t) ==> exists|e: ErrorView| rejects_with(t, e),
{
    if rejects_with(t, e1) && rejects_with(t, e2) {
        if labels(t).no_duplicates() {
            lemma_no_duplicates_means_none_repeats(t);
            let k1 = choose|k: int| #[trigger]
                first_failing_root(t, k) && root_walk(t, k) == Err::<Set<Seq<char>>, ErrorView>(e1);
            let k2 = choose|k: int| #[trigger]
                first_failing_root(t, k) && root_walk(t, k) == Err::<Set<Seq<char>>, ErrorView>(e2);
            assert(k1 == k2);
        } else {
            let j1 = choose|j: int| #[trigger]
                first_duplicate(t, j) && e1 == ErrorView::MultipleDefinition(t[j].0);
            let j2 = choose|j: int| #[trigger]
                first_duplicate(t, j) && e2 == ErrorView::MultipleDefinition(t[j].0);
            assert(j1 == j2);
        }
    }
    if rejects_with(t, e1) && labels(t).no_duplicates() {
        lemma_no_duplicates_means_none_repeats(t);
    }
    if !accepted(t) {
        if labels(t).no_duplicates() {
            let k = least_failing_root(t, t.len() as int);
            let e = root_walk(t, k)->Err_0;
            assert(first_failing_root(t, k));
            assert(rejects_with(t, e));
        } else {
            let ls = labels(t);
            let (a, b) = choose|a: int, b: int|
                0 <= a < ls.len() && 0 <= b < ls.len() && a != b && ls[a] == ls[b];
            if a < b {
                assert(t[a].0 == t[b].0);
                assert(duplicated_at(t, b));
            } else {
                assert(t[b].0 == t[a].0);
                assert(duplicated_at(t, a));
            }
            let j = least_duplicate(t, t.len() as int);
            assert(first_duplicate(t, j));
            assert(rejects_with(t, ErrorView::MultipleDefinition(t[j].0)));
        }
    }
}

proof fn lemma_no_duplicates_means_none_repeats(t: Topology)
    requires
        labels(t).no_duplicates(),
    ensures
        forall|j: int| 0 <= j < t.len() ==> !#[trigger] duplicated_at(t, j),
{
    let ls = labels(t);
    assert forall|j: int| 0 <= j < t.len() implies !#[trigger] duplicated_at(t, j) by {
        if duplicated_at(t, j) {
            let i = choose|i: int| 0 <= i < j && (#[trigger] t[i]).0 == t[j].0;
            assert(ls[i] == ls[j]);
        }
    }
}

/// The first of the first `n` roots whose walk fails.
proof fn least_failing_root(t: Topology, n: int) -> (k: int)
    requires
        0 <= n <= t.len(),
        exists|i: int| 0 <= i < n && (#[trigger] root_walk(t, i)) is Err,
    ensures
        first_failing_root(t, k),
    decreases n,
{
    if exists|i: int| 0 <= i < n - 1 && (#[trigger] root_walk(t, i)) is Err {
        least_failing_root(t, n - 1)
    } else {
        n - 1
    }
}

/// The first of the first `n` definitions that repeats an earlier label.
proof fn least_duplicate(t: Topology, n: int) -> (j: int)
    requires
        0 <= n <= t.len(),
        exists|i: int| 0 <= i < n && #[trigger] duplicated_at(t, i),
    ensures
        first_duplicate(t, j),
    decreases n,
{
    if exists|i: int| 0 <= i < n - 1 && #[trigger] duplicated_at(t, i) {
        least_duplicate(t, n - 1)
    } else {
        n - 1
    }
}

} // verus!
