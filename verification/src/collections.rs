//! The hash collections the registry is built on.
//!
//! Labels are looked up through `hashbrown`. Nothing in this file is proved:
//! each function states what the `hashbrown` method it calls does to the
//! labels held, and the rest of the crate is verified against that.

use vstd::prelude::*;

verus! {

/// A set of labels, held in a `hashbrown::HashSet<String>`.
#[verifier::external_body]
pub struct LabelSet {
    inner: hashbrown::HashSet<String>,
}

/// The labels that a `LabelSet` holds.
pub uninterp spec fn label_set_contents(s: LabelSet) -> Set<Seq<char>>;

impl View for LabelSet {
    type V = Set<Seq<char>>;

    open spec fn view(&self) -> Set<Seq<char>> {
        label_set_contents(*self)
    }
}

impl LabelSet {
    /// Calls `hashbrown::HashSet::new`, which builds a set that holds nothing.
    #[verifier::external_body]
    pub(crate) fn new() -> (s: LabelSet)
        ensures
            label_set_contents(s) == Set::<Seq<char>>::empty(),
    {
        LabelSet { inner: hashbrown::HashSet::new() }
    }

    /// Calls `hashbrown::HashSet::contains`: whether a label equal to `label` is held.
    #[verifier::external_body]
    pub(crate) fn contains(&self, label: &String) -> (found: bool)
        ensures
            found == label_set_contents(*self).contains(label@),
    {
        self.inner.contains(label)
    }

    /// Calls `hashbrown::HashSet::insert`: the label joins the set, and the
    /// result tells whether it was absent before.
    #[verifier::external_body]
    pub(crate) fn insert(&mut self, label: String) -> (fresh: bool)
        ensures
            label_set_contents(*final(self)) == label_set_contents(*old(self)).insert(label@),
            fresh == !label_set_contents(*old(self)).contains(label@),
    {
        self.inner.insert(label)
    }
}

/// Where each label is defined: a `hashbrown::HashMap<String, usize>` from a
/// label to its position in the list of definitions.
#[verifier::external_body]
pub struct LabelIndex {
    inner: hashbrown::HashMap<String, usize>,
}

/// The positions that a `LabelIndex` holds, by label.
pub uninterp spec fn label_index_contents(m: LabelIndex) -> Map<Seq<char>, usize>;

impl View for LabelIndex {
    type V = Map<Seq<char>, usize>;

    open spec fn view(&self) -> Map<Seq<char>, usize> {
        label_index_contents(*self)
    }
}

impl LabelIndex {
    /// Calls `hashbrown::HashMap::new`, which builds a map that holds nothing.
    #[verifier::external_body]
    pub(crate) fn new() -> (m: LabelIndex)
        ensures
            forall|label: Seq<char>| !label_index_contents(m).contains_key(label),
    {
        LabelIndex { inner: hashbrown::HashMap::new() }
    }

    /// Calls `hashbrown::HashMap::get`: the position held for a key equal to
    /// `label`, if there is one.
    #[verifier::external_body]
    pub(crate) fn get(&self, label: &String) -> (found: Option<usize>)
        ensures
            found == (if label_index_contents(*self).contains_key(label@) {
                Some(label_index_contents(*self)[label@])
            } else {
                None
            }),
    {
        self.inner.get(label).copied()
    }

    /// Calls `hashbrown::HashMap::contains_key`: whether a position is held
    /// for a key equal to `label`.
    #[verifier::external_body]
    pub(crate) fn contains_key(&self, label: &String) -> (found: bool)
        ensures
            found == label_index_contents(*self).contains_key(label@),
    {
        self.inner.contains_key(label)
    }

    /// Calls `hashbrown::HashMap::insert`: the map then holds `position` for
    /// `label`, and the result is the position it held for that label before.
    #[verifier::external_body]
    pub(crate) fn insert(&mut self, label: String, position: usize) -> (before: Option<usize>)
        ensures
            label_index_contents(*final(self)) == label_index_contents(*old(self)).insert(
                label@,
                position,
            ),
            before == (if label_index_contents(*old(self)).contains_key(label@) {
                Some(label_index_contents(*old(self))[label@])
            } else {
                None
            }),
    {
        self.inner.insert(label, position)
    }
}

} // verus!
