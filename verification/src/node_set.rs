use vstd::prelude::*;

verus! {

/// A set of node identifiers, held in bevy's hash set (`bevy_utils::HashSet`).
///
/// The set type carries an allocator parameter bounded by a trait of another crate,
/// so it is held here in a private field and reached only through the wrappers below.
#[verifier::external_body]
pub struct NodeSet {
    inner: bevy_utils::HashSet<u32>,
}

/// What a node set holds.
pub uninterp spec fn node_set_contents(s: NodeSet) -> Set<u32>;

impl View for NodeSet {
    type V = Set<u32>;

    open spec fn view(&self) -> Set<u32> {
        node_set_contents(*self)
    }
}

impl NodeSet {
    /// `bevy_utils::HashSet::default`: a new set holds nothing.
    #[verifier::external_body]
    pub(crate) fn new() -> (s: NodeSet)
        ensures
            node_set_contents(s) == Set::<u32>::empty(),
    {
        NodeSet { inner: bevy_utils::HashSet::default() }
    }

    /// `HashSet::insert`: adds `id`; returns whether it was absent before.
    #[verifier::external_body]
    pub(crate) fn insert(&mut self, id: u32) -> (fresh: bool)
        ensures
            node_set_contents(*final(self)) == node_set_contents(*old(self)).insert(id),
            fresh == !node_set_contents(*old(self)).contains(id),
    {
        self.inner.insert(id)
    }

    /// `HashSet::contains`: whether `id` is in the set.
    #[verifier::external_body]
    pub(crate) fn contains(&self, id: u32) -> (found: bool)
        ensures
            found == node_set_contents(*self).contains(id),
    {
        self.inner.contains(&id)
    }
}

/// Collects node identifiers into a set.
pub(crate) fn node_set_from(ids: &Vec<u32>) -> (s: NodeSet)
    ensures
        s@ == ids@.to_set(),
{
    let mut s = NodeSet::new();
    let mut i: usize = 0;
    while i < ids.len()
        invariant
            i <= ids.len(),
            s@ == ids@.subrange(0, i as int).to_set(),
        decreases ids.len() - i,
    {
        s.insert(ids[i]);
        proof {
            assert(ids@.subrange(0, i + 1) == ids@.subrange(0, i as int).push(ids@[i as int]));
            ids@.subrange(0, i as int).lemma_push_to_set_commute(ids@[i as int]);
        }
        i = i + 1;
    }
    assert(ids@.subrange(0, ids.len() as int) == ids@);
    s
}

/// A set of edges given by their two ends, held in bevy's hash set
/// (`bevy_utils::HashSet`), in a private field for the same reason as `NodeSet`.
#[verifier::external_body]
pub struct EdgeSet {
    inner: bevy_utils::HashSet<(u32, u32)>,
}

/// What an edge set holds.
pub uninterp spec fn edge_set_contents(s: EdgeSet) -> Set<(u32, u32)>;

impl View for EdgeSet {
    type V = Set<(u32, u32)>;

    open spec fn view(&self) -> Set<(u32, u32)> {
        edge_set_contents(*self)
    }
}

impl EdgeSet {
    /// `bevy_utils::HashSet::default`: a new set holds nothing.
    #[verifier::external_body]
    pub(crate) fn new() -> (s: EdgeSet)
        ensures
            edge_set_contents(s) == Set::<(u32, u32)>::empty(),
    {
        EdgeSet { inner: bevy_utils::HashSet::default() }
    }

    /// `HashSet::insert`: adds `edge`; returns whether it was absent before.
    #[verifier::external_body]
    pub(crate) fn insert(&mut self, edge: (u32, u32)) -> (fresh: bool)
        ensures
            edge_set_contents(*final(self)) == edge_set_contents(*old(self)).insert(edge),
            fresh == !edge_set_contents(*old(self)).contains(edge),
    {
        self.inner.insert(edge)
    }

    /// `HashSet::contains`: whether `edge` is in the set.
    #[verifier::external_body]
    pub(crate) fn contains(&self, edge: (u32, u32)) -> (found: bool)
        ensures
            found == edge_set_contents(*self).contains(edge),
    {
        self.inner.contains(&edge)
    }
}

/// Collects edges into a set.
pub(crate) fn edge_set_from(edges: &Vec<(u32, u32)>) -> (s: EdgeSet)
    ensures
        s@ == edges@.to_set(),
{
    let mut s = EdgeSet::new();
    let mut i: usize = 0;
    while i < edges.len()
        invariant
            i <= edges.len(),
            s@ == edges@.subrange(0, i as int).to_set(),
        decreases edges.len() - i,
    {
        s.insert(edges[i]);
        proof {
            assert(edges@.subrange(0, i + 1) == edges@.subrange(0, i as int).push(edges@[i as int]));
            edges@.subrange(0, i as int).lemma_push_to_set_commute(edges@[i as int]);
        }
        i = i + 1;
    }
    assert(edges@.subrange(0, edges.len() as int) == edges@);
    s
}

/// Whether `picked` lists, in strictly ascending order, exactly the positions
/// below `n` that satisfy `pred`.
pub open spec fn picks_exactly(picked: Seq<usize>, n: int, pred: spec_fn(int) -> bool) -> bool {
    &&& forall|a: int, b: int| 0 <= a < b < picked.len() ==> picked[a] < picked[b]
    &&& forall|a: int| 0 <= a < picked.len() ==> picked[a] < n && pred(picked[a] as int)
    &&& forall|i: int| 0 <= i < n && #[trigger] pred(i) ==> picked.contains(i as usize)
}

/// One step of a scan that picks positions: after looking at position `i`, the
/// picked positions are exactly those below `i + 1` that satisfy `pred`.
pub proof fn lemma_pick_step(before: Seq<usize>, after: Seq<usize>, i: usize, pred: spec_fn(int) -> bool)
    requires
        picks_exactly(before, i as int, pred),
        pred(i as int) ==> after == before.push(i),
        !pred(i as int) ==> after == before,
    ensures
        picks_exactly(after, i + 1, pred),
{
    assert forall|j: int| 0 <= j < i + 1 && #[trigger] pred(j) implies after.contains(j as usize) by {
        if j < i {
            let m = choose|m: int| 0 <= m < before.len() && before[m] == j as usize;
            assert(after[m] == j as usize);
        } else {
            assert(after[after.len() - 1] == i);
        }
    }
}

} // verus!
