//! The registry of upstreams: a validated mapping from labels to upstreams.

use crate::collections::{LabelIndex, LabelSet};
use crate::error::{ErrorView, UpstreamError};
use crate::topology::{
    accepted, acyclic, closed, defined_before, defines, duplicated_at, edge, first_duplicate,
    first_failing_root, hybrids_inhabited, labels, lemma_accepted_is_sound,
    lemma_visit_shrinks_unseen, lemma_walk_grows, lemma_walk_then, rejects_with, root_walk,
    shape_of, unseen, walk, Shape, Topology,
};
use crate::upstream::{label_views, Leaf, ParsedUpstream, Upstream};
use vstd::prelude::*;

verus! {

/// The upstreams of a router, each under its label.
pub struct Upstreams {
    entries: Vec<(String, Upstream)>,
    index: LabelIndex,
}

/// How one label is resolved.
#[derive(Debug, PartialEq, Eq)]
pub enum Plan<'a> {
    /// Ask all of these members, and answer with the first success.
    Race(&'a Vec<String>),
    /// Ask this leaf.
    Ask(&'a Leaf),
}

/// The graph that a list of definitions describes.
pub open spec fn topology_of(defs: Seq<(String, Upstream)>) -> Topology {
    defs.map_values(|d: (String, Upstream)| (d.0@, d.1.shape()))
}

/// The definitions that a configuration describes, each leaf with a cache
/// of `size` responses.
pub open spec fn definitions_of(parsed: Seq<ParsedUpstream>, size: usize) -> Seq<
    (String, Upstream),
> {
    parsed.map_values(|p: ParsedUpstream| (p.tag, Upstream::of_parsed(p.method, size)))
}

impl Upstreams {
    /// The definitions, in the order they were given.
    pub closed spec fn defs(&self) -> Seq<(String, Upstream)> {
        self.entries@
    }

    /// The graph of the registry.
    pub open spec fn topology(&self) -> Topology {
        topology_of(self.defs())
    }

    /// Every label is defined once, and the index finds each definition.
    pub closed spec fn indexed(&self) -> bool {
        let t = self.topology();
        &&& labels(t).no_duplicates()
        &&& forall|l: Seq<char>| self.index@.contains_key(l) <==> defines(t, l)
        &&& forall|i: int| 0 <= i < t.len() ==> self.index@[(#[trigger] t[i]).0] == i
    }

    /// What holds of every registry that `new` hands out.
    pub open spec fn wf(&self) -> bool {
        self.indexed() && accepted(self.topology())
    }

    proof fn lemma_lookup(&self, tag: Seq<char>)
        requires
            self.indexed(),
            defines(self.topology(), tag),
        ensures
            self.index@.contains_key(tag),
            0 <= self.index@[tag] < self.entries.len(),
            self.index@[tag] == labels(self.topology()).index_of(tag),
            self.topology()[self.index@[tag] as int].0 == tag,
            shape_of(self.topology(), tag) == self.entries[self.index@[tag] as int].1.shape(),
    {
        let t = self.topology();
        let ls = labels(t);
        let i = ls.index_of(tag);
        assert(0 <= i < ls.len() && ls[i] == tag);
        assert(t[i].0 == tag);
        assert(self.index@[t[i].0] == i);
    }

    /// Builds the registry of `upstreams`, each given with its label, and
    /// validates it. The definitions are kept as given, in their order.
    ///
    /// A label defined twice is refused first, at its first repetition. Then
    /// each definition is walked as a root, in the order given: the walk goes
    /// depth first through the members of hybrids and keeps the labels it
    /// has visited, and it fails on a label it has visited before, on a label
    /// that nothing defines, and on a hybrid without members.
    pub fn new(upstreams: Vec<(String, Upstream)>) -> (r: Result<Upstreams, UpstreamError>)
        ensures
            match r {
                Ok(u) => u.wf() && u.defs() == upstreams@ && closed(u.topology()) && acyclic(
                    u.topology(),
                ) && hybrids_inhabited(u.topology()),
                Err(e) => rejects_with(topology_of(upstreams@), e@),
            },
    {
        let ghost t = topology_of(upstreams@);
        let mut index = LabelIndex::new();
        let mut i: usize = 0;
        while i < upstreams.len()
            invariant
                i <= upstreams.len(),
                t == topology_of(upstreams@),
                forall|l: Seq<char>| #[trigger]
                    index@.contains_key(l) <==> defined_before(t, i as int, l),
                forall|j: int| 0 <= j < i ==> index@[(#[trigger] t[j]).0] == j,
                forall|j: int| 0 <= j < i ==> !#[trigger] duplicated_at(t, j),
            decreases upstreams.len() - i,
        {
            let label = &upstreams[i].0;
            assert(t[i as int].0 == label@);
            match index.get(label) {
                Some(_) => {
                    assert(index@.contains_key(label@));
                    assert(duplicated_at(t, i as int));
                    assert(first_duplicate(t, i as int));
                    return Err(UpstreamError::MultipleDefinition(label.clone()));
                },
                None => {
                    assert(!index@.contains_key(label@));
                    assert(!duplicated_at(t, i as int));
                    let ghost before = index@;
                    index.insert(label.clone(), i);
                    assert forall|l: Seq<char>| #[trigger]
                        index@.contains_key(l) <==> defined_before(t, i + 1, l) by {
                        if l == label@ {
                            assert(t[i as int].0 == l);
                        } else if before.contains_key(l) {
                            let j = choose|j: int| 0 <= j < i && (#[trigger] t[j]).0 == l;
                            assert(t[j].0 == l);
                        } else if defined_before(t, i + 1, l) {
                            let j = choose|j: int| 0 <= j < i + 1 && (#[trigger] t[j]).0 == l;
                            assert(j < i);
                            assert(defined_before(t, i as int, l));
                        }
                    }
                },
            }
            i += 1;
        }
        proof {
            let ls = labels(t);
            assert forall|a: int, b: int|
                0 <= a < ls.len() && 0 <= b < ls.len() && a != b implies ls[a] != ls[b] by {
                if ls[a] == ls[b] {
                    if a < b {
                        assert(t[a].0 == t[b].0);
                        assert(duplicated_at(t, b));
                    } else {
                        assert(t[b].0 == t[a].0);
                        assert(duplicated_at(t, a));
                    }
                }
            }
            assert forall|l: Seq<char>| index@.contains_key(l) <==> defines(t, l) by {
                if index@.contains_key(l) {
                    assert(defined_before(t, i as int, l));
                    let j = choose|j: int| 0 <= j < i && (#[trigger] t[j]).0 == l;
                    assert(ls[j] == l);
                }
                if defines(t, l) {
                    let j = ls.index_of(l);
                    assert(t[j].0 == l);
                    assert(defined_before(t, i as int, l));
                }
            }
        }
        let u = Upstreams { entries: upstreams, index };
        match u.check() {
            Ok(_) => {
                proof {
                    lemma_accepted_is_sound(t);
                }
                Ok(u)
            },
            Err(e) => Err(e),
        }
    }

    /// Builds the registry that a configuration describes: each leaf gets a
    /// cache of `size` responses, and the definitions are then validated as
    /// `new` does.
    pub fn with_parsed(upstreams: Vec<ParsedUpstream>, size: usize) -> (r: Result<
        Upstreams,
        UpstreamError,
    >)
        ensures
            match r {
                Ok(u) => u.wf() && u.defs() == definitions_of(upstreams@, size),
                Err(e) => rejects_with(topology_of(definitions_of(upstreams@, size)), e@),
            },
    {
        let ghost parsed = upstreams@;
        let mut v: Vec<(String, Upstream)> = Vec::new();
        for u in it: upstreams
            invariant
                parsed == it.seq(),
                v@ == definitions_of(parsed.take(it.index() as int), size),
        {
            let ghost k = it.index() as int;
            let tag = u.tag.clone();
            v.push((tag, Upstream::with_parsed(u, size)));
            assert(v@ =~= definitions_of(parsed.take(k + 1), size)) by {
                assert(parsed.take(k + 1) =~= parsed.take(k).push(parsed[k]));
            }
        }
        assert(parsed.take(parsed.len() as int) =~= parsed);
        Upstreams::new(v)
    }

    /// Checks that the registry is legitimate, as `new` did when it built
    /// it: of a registry that `new` has handed out the result is `Ok(true)`.
    pub fn check(&self) -> (r: Result<bool, UpstreamError>)
        requires
            self.indexed(),
        ensures
            match r {
                Ok(valid) => valid && accepted(self.topology()),
                Err(e) => rejects_with(self.topology(), e@),
            },
    {
        let ghost t = self.topology();
        let mut k: usize = 0;
        while k < self.entries.len()
            invariant
                self.indexed(),
                t == self.topology(),
                k <= self.entries.len(),
                forall|i: int| 0 <= i < k ==> (#[trigger] root_walk(t, i)) is Ok,
            decreases self.entries.len() - k,
        {
            let mut l = LabelSet::new();
            match self.traverse(&mut l, &self.entries[k].0) {
                Ok(()) => {},
                Err(e) => {
                    assert(first_failing_root(t, k as int));
                    return Err(e);
                },
            }
            k += 1;
        }
        Ok(true)
    }

    /// Whether `tag` names an upstream of the registry; the error names the
    /// tag where it does not.
    pub fn has_tag(&self, tag: &String) -> (r: Result<bool, UpstreamError>)
        requires
            self.indexed(),
        ensures
            match r {
                Ok(found) => found && defines(self.topology(), tag@),
                Err(e) => !defines(self.topology(), tag@) && e@ == ErrorView::MissingTag(tag@),
            },
    {
        if self.index.contains_key(tag) {
            Ok(true)
        } else {
            Err(UpstreamError::MissingTag(tag.clone()))
        }
    }

    /// The upstream that `tag` names, if the registry has one.
    pub fn get(&self, tag: &String) -> (r: Option<&Upstream>)
        requires
            self.indexed(),
        ensures
            match r {
                Some(u) => defines(self.topology(), tag@) && u.shape() == shape_of(
                    self.topology(),
                    tag@,
                ) && exists|i: int|
                    0 <= i < self.defs().len() && (#[trigger] self.defs()[i]).0@ == tag@
                        && self.defs()[i].1 == *u,
                None => !defines(self.topology(), tag@),
            },
    {
        match self.index.get(tag) {
            Some(pos) => {
                proof {
                    self.lemma_lookup(tag@);
                }
                Some(&self.entries[pos].1)
            },
            None => None,
        }
    }

    /// How `tag` is resolved: by a race among the members of a hybrid, or
    /// by asking a leaf. The members of a hybrid are there, and each is an
    /// upstream of the registry.
    pub fn plan(&self, tag: &String) -> (r: Plan<'_>)
        requires
            self.wf(),
            defines(self.topology(), tag@),
        ensures
            match r {
                Plan::Race(ms) => shape_of(self.topology(), tag@) == Shape::Hybrid(label_views(ms@))
                    && ms.len() > 0 && forall|i: int|
                    0 <= i < ms.len() ==> defines(self.topology(), #[trigger] ms[i]@),
                Plan::Ask(leaf) => shape_of(self.topology(), tag@) is Leaf && exists|i: int|
                    0 <= i < self.defs().len() && (#[trigger] self.defs()[i]).0@ == tag@
                        && self.defs()[i].1 == Upstream::Leaf(*leaf),
            },
    {
        let ghost t = self.topology();
        proof {
            self.lemma_lookup(tag@);
            lemma_accepted_is_sound(t);
        }
        let pos = self.index.get(tag).unwrap();
        match &self.entries[pos].1 {
            Upstream::Hybrid(ms) => {
                assert forall|i: int| 0 <= i < ms.len() implies defines(t, #[trigger] ms[i]@) by {
                    assert(label_views(ms@)[i] == ms[i]@);
                    assert(edge(t, tag@, ms[i]@));
                }
                assert(t[pos as int].1 == Shape::Hybrid(label_views(ms@)));
                Plan::Race(ms)
            },
            Upstream::Leaf(leaf) => Plan::Ask(leaf),
        }
    }

    /// The `i`-th definition, in the order given: its label and the
    /// upstream; `None` where there are not so many.
    pub fn entry_at(&self, i: usize) -> (r: Option<(&String, &Upstream)>)
        ensures
            match r {
                Some((label, upstream)) => i < self.defs().len() && self.defs()[i as int] == (
                    *label,
                    *upstream,
                ),
                None => i >= self.defs().len(),
            },
    {
        if i < self.entries.len() {
            Some((&self.entries[i].0, &self.entries[i].1))
        } else {
            None
        }
    }

    /// How many upstreams the registry holds.
    pub fn len(&self) -> (n: usize)
        ensures
            n == self.defs().len(),
    {
        self.entries.len()
    }

    /// Walks the graph from `tag`, depth first, adding to `l` each label it visits.
    fn traverse(&self, l: &mut LabelSet, tag: &String) -> (r: Result<(), UpstreamError>)
        requires
            self.indexed(),
        ensures
            match r {
                Ok(()) => walk(self.topology(), old(l)@, seq![tag@]) == Ok::<
                    Set<Seq<char>>,
                    ErrorView,
                >(final(l)@),
                Err(e) => walk(self.topology(), old(l)@, seq![tag@]) == Err::<
                    Set<Seq<char>>,
                    ErrorView,
                >(e@),
            },
        decreases unseen(self.topology(), old(l)@).len(),
    {
        let ghost t = self.topology();
        let ghost seen0 = l@;
        let ghost root = seq![tag@];
        assert(root[0] == tag@);
        assert(root.drop_first() =~= Seq::<Seq<char>>::empty());
        if l.contains(tag) {
            return Err(UpstreamError::HybridRecursion(tag.clone()));
        }
        l.insert(tag.clone());
        let ghost seen1 = l@;
        match self.index.get(tag) {
            None => Err(UpstreamError::MissingTag(tag.clone())),
            Some(pos) => {
                proof {
                    self.lemma_lookup(tag@);
                    lemma_visit_shrinks_unseen(t, seen0, tag@);
                }
                match &self.entries[pos].1 {
                    Upstream::Leaf(_) => {
                        assert(walk(t, seen1, root.drop_first()) == Ok::<
                            Set<Seq<char>>,
                            ErrorView,
                        >(seen1));
                        Ok(())
                    },
                    Upstream::Hybrid(v) => {
                        if v.len() == 0 {
                            return Err(UpstreamError::EmptyHybrid(tag.clone()));
                        }
                        let ghost ms = label_views(v@);
                        assert(ms + root.drop_first() =~= ms);
                        assert(ms.skip(0) =~= ms);
                        assert(walk(t, seen0, root) == walk(t, seen1, ms));
                        let mut j: usize = 0;
                        while j < v.len()
                            invariant
                                self.indexed(),
                                t == self.topology(),
                                ms == label_views(v@),
                                j <= v.len(),
                                seen1.subset_of(l@),
                                walk(t, seen1, ms) == walk(t, l@, ms.skip(j as int)),
                                unseen(t, seen1).len() < unseen(t, seen0).len(),
                                seen0 == old(l)@,
                                walk(t, seen0, seq![tag@]) == walk(t, seen1, ms),
                            decreases v.len() - j,
                        {
                            let ghost before = l@;
                            proof {
                                vstd::seq_lib::seq_to_set_is_finite(labels(t));
                                vstd::set_lib::lemma_len_subset(
                                    unseen(t, before),
                                    unseen(t, seen1),
                                );
                                assert(ms.skip(j as int) =~= seq![ms[j as int]] + ms.skip(j + 1));
                                lemma_walk_then(t, before, seq![ms[j as int]], ms.skip(j + 1));
                            }
                            match self.traverse(l, &v[j]) {
                                Err(e) => {
                                    return Err(e);
                                },
                                Ok(()) => {
                                    proof {
                                        lemma_walk_grows(t, before, seq![ms[j as int]]);
                                    }
                                },
                            }
                            j += 1;
                        }
                        assert(ms.skip(v.len() as int) =~= Seq::<Seq<char>>::empty());
                        assert(walk(t, l@, Seq::<Seq<char>>::empty()) == Ok::<
                            Set<Seq<char>>,
                            ErrorView,
                        >(l@));
                        Ok(())
                    },
                }
            },
        }
    }
}

} // verus!
