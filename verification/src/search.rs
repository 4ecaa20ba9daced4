use vstd::prelude::*;

use crate::components::NodeId;
use crate::consts::SEARCH_THRESHOLD;
use crate::node_set::{lemma_pick_step, node_set_from, picks_exactly, NodeSet};
use crate::resources::{byte_len, SearchState};

verus! {

/// Shows the search box when hidden, hides it when shown.
pub fn process_searchbox_visibility_toggle(state: &mut SearchState)
    ensures
        final(state).open == !old(state).open,
        final(state).search_query@ == old(state).search_query@,
{
    state.open = !state.open;
}

/// When the search box is hidden or its query empty, empties the query and returns
/// `true`: every search result is then unmarked. Otherwise changes nothing.
pub fn cleanup_search_results(state: &mut SearchState) -> (cleared: bool)
    ensures
        cleared == (!old(state).open || old(state).search_query@.len() == 0),
        cleared ==> final(state).search_query@.len() == 0,
        !cleared ==> final(state).search_query@ == old(state).search_query@,
        final(state).open == old(state).open,
{
    if !state.open || state.search_query.as_str().is_empty() {
        state.search_query = String::new();
        true
    } else {
        false
    }
}

/// What a search does to the tree: the positions, among the current results, of those
/// that no longer match (they are unmarked and take the base colour), and the positions,
/// among all nodes, of those that match (they are marked).
pub struct SearchMarks {
    pub unmark: Vec<usize>,
    pub mark: Vec<usize>,
}

/// Marks the nodes that match the query. `matches` are the nodes the tree's fuzzy search
/// found for it, `current` the nodes marked now and `all` every node. Nothing happens
/// (`None`) while the query is shorter than the search threshold (in bytes).
pub fn mark_matches(
    state: &SearchState,
    matches: &Vec<NodeId>,
    current: &Vec<NodeId>,
    all: &Vec<NodeId>,
) -> (marks: Option<SearchMarks>)
    ensures
        marks is None <==> byte_len(state.search_query@) < SEARCH_THRESHOLD,
        marks matches Some(m) ==> picks_exactly(
            m.unmark@,
            current@.len() as int,
            |i: int| !matches@.contains(current@[i]),
        ) && picks_exactly(m.mark@, all@.len() as int, |i: int| matches@.contains(all@[i])),
{
    if !state.should_search() {
        return None;
    }
    let found: NodeSet = node_set_from(matches);
    let ghost stale = |i: int| !matches@.contains(current@[i]);
    let mut unmark: Vec<usize> = Vec::new();
    let mut i: usize = 0;
    while i < current.len()
        invariant
            i <= current@.len(),
            found@ == matches@.to_set(),
            stale == (|i: int| !matches@.contains(current@[i])),
            picks_exactly(unmark@, i as int, stale),
        decreases current@.len() - i,
    {
        let hit = !found.contains(current[i]);
        let ghost before = unmark@;
        if hit {
            unmark.push(i);
        }
        proof {
            lemma_pick_step(before, unmark@, i, stale);
        }
        i = i + 1;
    }
    let ghost fresh = |i: int| matches@.contains(all@[i]);
    let mut mark: Vec<usize> = Vec::new();
    let mut j: usize = 0;
    while j < all.len()
        invariant
            j <= all@.len(),
            found@ == matches@.to_set(),
            fresh == (|i: int| matches@.contains(all@[i])),
            picks_exactly(mark@, j as int, fresh),
        decreases all@.len() - j,
    {
        let hit = found.contains(all[j]);
        let ghost before = mark@;
        if hit {
            mark.push(j);
        }
        proof {
            lemma_pick_step(before, mark@, j, fresh);
        }
        j = j + 1;
    }
    Some(SearchMarks { unmark, mark })
}

} // verus!
