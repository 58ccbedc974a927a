//! The run over a whole network: which ways are selected, which nodes they
//! need, and the statistics of each selected way.
//!
//! The elevations are sampled between the two steps, by the caller: first
//! [`referenced_nodes`] says which nodes need one, then [`run`] takes the
//! index built from the samples. The statistics come in the order of the
//! ways, and the first way that has none ends the run with its error.

use crate::aggregate::{
    aggregated, lemma_first_missing_none, try_aggregate, AggregateError, Totals, WayStatistics,
};
use crate::elevation::ElevationIndex;
use crate::filter::{any_holds, FilterSpec, FilterView};
use crate::scan::{first_index, lemma_first_index, lemma_first_index_is};
use crate::tags::tag_map;
use crate::way::Way;
use std::collections::HashSet;
use vstd::prelude::*;

verus! {

broadcast use vstd::std_specs::hash::group_hash_axioms;

/// Whether the conditions select the way.
pub open spec fn is_selected(way: Way, conditions: Seq<FilterView>) -> bool {
    any_holds(tag_map(way.tags), conditions)
}

/// The ways that the conditions select, in their order.
pub open spec fn selection(ways: Seq<Way>, conditions: Seq<FilterView>) -> Seq<Way>
    decreases ways.len(),
{
    if ways.len() == 0 {
        Seq::empty()
    } else if is_selected(ways.last(), conditions) {
        selection(ways.drop_last(), conditions).push(ways.last())
    } else {
        selection(ways.drop_last(), conditions)
    }
}

/// The nodes of the ways, way after way.
pub open spec fn all_nodes(ways: Seq<Way>) -> Seq<i64>
    decreases ways.len(),
{
    if ways.len() == 0 {
        Seq::empty()
    } else {
        all_nodes(ways.drop_last()) + ways.last().nodes@
    }
}

/// The nodes without repetition: each where it first occurs.
pub open spec fn distinct(nodes: Seq<i64>) -> Seq<i64>
    decreases nodes.len(),
{
    if nodes.len() == 0 {
        Seq::empty()
    } else if distinct(nodes.drop_last()).contains(nodes.last()) {
        distinct(nodes.drop_last())
    } else {
        distinct(nodes.drop_last()).push(nodes.last())
    }
}

/// The nodes that need an elevation: those of the selected ways, each once.
pub open spec fn referenced(ways: Seq<Way>, conditions: Seq<FilterView>) -> Seq<i64> {
    distinct(all_nodes(selection(ways, conditions)))
}

/// The test for a selected way that has no statistics.
pub open spec fn fails(conditions: Seq<FilterView>, elevations: Map<i64, i64>) -> spec_fn(
    Way,
) -> bool {
    |way: Way| is_selected(way, conditions) && aggregated(way, elevations) is Err
}

/// The statistics of the ways, one after the other.
pub open spec fn totals_of(ways: Seq<Way>, elevations: Map<i64, i64>) -> Seq<Totals> {
    Seq::new(ways.len(), |i: int| aggregated(ways[i], elevations)->Ok_0)
}

/// What a run comes to: the statistics of the selected ways in their order,
/// or the error of the first selected way that has none.
pub open spec fn summary(
    ways: Seq<Way>,
    conditions: Seq<FilterView>,
    elevations: Map<i64, i64>,
) -> Result<Seq<Totals>, AggregateError> {
    let bad = first_index(ways, fails(conditions, elevations));
    if bad < ways.len() {
        Err(aggregated(ways[bad], elevations)->Err_0)
    } else {
        Ok(totals_of(selection(ways, conditions), elevations))
    }
}

/// The view of the result of a run.
pub open spec fn summary_view(r: Result<Vec<WayStatistics>, AggregateError>) -> Result<
    Seq<Totals>,
    AggregateError,
> {
    match r {
        Ok(statistics) => Ok(Seq::new(statistics@.len(), |i: int| statistics@[i]@)),
        Err(e) => Err(e),
    }
}

/// `distinct` keeps every node and repeats none.
pub proof fn lemma_distinct(nodes: Seq<i64>)
    ensures
        distinct(nodes).no_duplicates(),
        forall|node: i64| distinct(nodes).contains(node) <==> nodes.contains(node),
    decreases nodes.len(),
{
    if nodes.len() > 0 {
        let before = nodes.drop_last();
        let last = nodes.last();
        lemma_distinct(before);
        assert(before.push(last) == nodes);
        assert forall|node: i64| distinct(nodes).contains(node) <==> nodes.contains(node) by {
            vstd::seq_lib::lemma_seq_contains_after_push(distinct(before), last, node);
            vstd::seq_lib::lemma_seq_contains_after_push(before, last, node);
        }
    }
}

/// The selected ways are ways that the conditions select, and every such way
/// is among them.
pub proof fn lemma_selection(ways: Seq<Way>, conditions: Seq<FilterView>)
    ensures
        forall|i: int|
            0 <= i < selection(ways, conditions).len() ==> is_selected(
                #[trigger] selection(ways, conditions)[i],
                conditions,
            ),
        forall|i: int|
            0 <= i < ways.len() && is_selected(#[trigger] ways[i], conditions) ==> selection(
                ways,
                conditions,
            ).contains(ways[i]),
    decreases ways.len(),
{
    if ways.len() > 0 {
        let before = ways.drop_last();
        let chosen = selection(before, conditions);
        lemma_selection(before, conditions);
        assert forall|i: int|
            0 <= i < ways.len() && is_selected(
                #[trigger] ways[i],
                conditions,
            ) implies selection(ways, conditions).contains(ways[i]) by {
            vstd::seq_lib::lemma_seq_contains_after_push(chosen, ways.last(), ways[i]);
            if i < before.len() {
                assert(before[i] == ways[i]);
            }
        }
    }
}

/// The nodes of the ways hold every node of each of them.
pub proof fn lemma_all_nodes(ways: Seq<Way>, i: int, j: int)
    requires
        0 <= i < ways.len(),
        0 <= j < ways[i].nodes@.len(),
    ensures
        all_nodes(ways).contains(ways[i].nodes@[j]),
    decreases ways.len(),
{
    let before = all_nodes(ways.drop_last());
    if i == ways.len() - 1 {
        assert(all_nodes(ways)[before.len() + j] == ways[i].nodes@[j]);
    } else {
        lemma_all_nodes(ways.drop_last(), i, j);
        let k = choose|k: int| 0 <= k < before.len() && before[k] == ways[i].nodes@[j];
        assert(all_nodes(ways)[k] == ways[i].nodes@[j]);
    }
}

/// The nodes to sample are listed once each, and hold every node of every
/// selected way.
pub proof fn lemma_referenced(ways: Seq<Way>, conditions: Seq<FilterView>)
    ensures
        referenced(ways, conditions).no_duplicates(),
        forall|i: int, j: int|
            0 <= i < ways.len() && is_selected(ways[i], conditions) && 0 <= j
                < ways[i].nodes@.len() ==> referenced(ways, conditions).contains(
                #[trigger] ways[i].nodes@[j],
            ),
{
    let chosen = selection(ways, conditions);
    lemma_distinct(all_nodes(chosen));
    lemma_selection(ways, conditions);
    assert forall|i: int, j: int|
        0 <= i < ways.len() && is_selected(ways[i], conditions) && 0 <= j
            < ways[i].nodes@.len() implies referenced(ways, conditions).contains(
        #[trigger] ways[i].nodes@[j],
    ) by {
        assert(chosen.contains(ways[i]));
        let k = choose|k: int| 0 <= k < chosen.len() && chosen[k] == ways[i];
        lemma_all_nodes(chosen, k, j);
    }
}

/// Once every listed node has an elevation, no selected way lacks one: a run
/// over well-formed ways then ends with statistics.
pub proof fn lemma_sampled_run_has_statistics(
    ways: Seq<Way>,
    conditions: Seq<FilterView>,
    elevations: Map<i64, i64>,
)
    requires
        forall|i: int|
            0 <= i < ways.len() && is_selected(#[trigger] ways[i], conditions)
                ==> ways[i].well_formed(),
        forall|i: int|
            0 <= i < referenced(ways, conditions).len() ==> elevations.contains_key(
                #[trigger] referenced(ways, conditions)[i],
            ),
    ensures
        summary(ways, conditions, elevations) is Ok,
{
    lemma_referenced(ways, conditions);
    let needed = referenced(ways, conditions);
    assert forall|i: int| 0 <= i < ways.len() implies !fails(conditions, elevations)(
        #[trigger] ways[i],
    ) by {
        if is_selected(ways[i], conditions) {
            assert forall|j: int| 0 <= j < ways[i].nodes@.len() implies elevations.contains_key(
                #[trigger] ways[i].nodes@[j],
            ) by {
                assert(needed.contains(ways[i].nodes@[j]));
                let k = choose|k: int| 0 <= k < needed.len() && needed[k] == ways[i].nodes@[j];
                assert(elevations.contains_key(needed[k]));
            }
            lemma_first_missing_none(elevations, ways[i].nodes@);
        }
    }
    lemma_first_index_is(ways, fails(conditions, elevations), ways.len() as int);
}

/// The statistics of a run come one per selected way, in the order of the
/// ways, each under the id of its way.
pub proof fn lemma_summary_follows_ways(
    ways: Seq<Way>,
    conditions: Seq<FilterView>,
    elevations: Map<i64, i64>,
)
    requires
        summary(ways, conditions, elevations) is Ok,
    ensures
        summary(ways, conditions, elevations)->Ok_0.len() == selection(ways, conditions).len(),
        forall|i: int|
            0 <= i < selection(ways, conditions).len() ==> (#[trigger] summary(
                ways,
                conditions,
                elevations,
            )->Ok_0[i]).way_id == selection(ways, conditions)[i].id,
{
    let chosen = selection(ways, conditions);
    lemma_selection(ways, conditions);
    lemma_first_index(ways, fails(conditions, elevations));
    assert forall|i: int| 0 <= i < chosen.len() implies aggregated(chosen[i], elevations) is Ok by {
        lemma_selected_is_a_way(ways, conditions, i);
        let k = choose|k: int| 0 <= k < ways.len() && ways[k] == chosen[i];
        assert(!fails(conditions, elevations)(ways[k]));
    }
}

/// A run depends on nothing but the ways, the conditions and the elevations:
/// two runs over the same three end alike, with the same statistics in the
/// same order or with the same error.
pub proof fn lemma_runs_end_alike(
    first: Result<Vec<WayStatistics>, AggregateError>,
    second: Result<Vec<WayStatistics>, AggregateError>,
    ways: Seq<Way>,
    conditions: Seq<FilterView>,
    elevations: Map<i64, i64>,
)
    requires
        summary_view(first) == summary(ways, conditions, elevations),
        summary_view(second) == summary(ways, conditions, elevations),
    ensures
        first is Ok <==> second is Ok,
        first is Ok ==> first->Ok_0@ == second->Ok_0@,
        first is Err ==> first->Err_0 == second->Err_0,
{
    if first is Ok {
        let a = first->Ok_0@;
        let b = second->Ok_0@;
        let seen = summary(ways, conditions, elevations)->Ok_0;
        assert(a.len() == seen.len());
        assert(b.len() == seen.len());
        assert forall|i: int| 0 <= i < a.len() implies a[i] == b[i] by {
            assert(a[i]@ == seen[i]);
            assert(b[i]@ == seen[i]);
        }
        assert(a =~= b);
    }
}

/// Every selected way is one of the ways.
pub proof fn lemma_selected_is_a_way(ways: Seq<Way>, conditions: Seq<FilterView>, i: int)
    requires
        0 <= i < selection(ways, conditions).len(),
    ensures
        ways.contains(selection(ways, conditions)[i]),
    decreases ways.len(),
{
    if ways.len() > 0 {
        let before = ways.drop_last();
        if i < selection(before, conditions).len() {
            lemma_selected_is_a_way(before, conditions, i);
            let k = choose|k: int|
                0 <= k < before.len() && before[k] == selection(before, conditions)[i];
            assert(ways[k] == before[k]);
        } else {
            assert(ways[ways.len() - 1] == selection(ways, conditions)[i]);
        }
    }
}

/// Lists the nodes that need an elevation: every node of a way that the
/// filter selects, once, in the order in which the ways first reach
/// them.
pub fn referenced_nodes(ways: &Vec<Way>, spec: &FilterSpec) -> (nodes: Vec<i64>)
    ensures
        nodes@ == referenced(ways@, spec@),
{
    let mut nodes: Vec<i64> = Vec::new();
    let mut seen: HashSet<i64> = HashSet::new();
    let ghost mut reached: Seq<i64> = Seq::empty();
    let mut i: usize = 0;
    proof {
        assert(ways@.take(0) == Seq::<Way>::empty());
    }
    while i < ways.len()
        invariant
            i <= ways@.len(),
            reached == all_nodes(selection(ways@.take(i as int), spec@)),
            nodes@ == distinct(reached),
            forall|node: i64| seen@.contains(node) <==> nodes@.contains(node),
        decreases ways@.len() - i,
    {
        let way = &ways[i];
        proof {
            assert(ways@.take(i + 1).drop_last() == ways@.take(i as int));
            assert(ways@.take(i + 1).last() == *way);
        }
        if crate::filter::matches(&way.tags, spec) {
            let ghost before = reached;
            let mut j: usize = 0;
            proof {
                assert(before + way.nodes@.take(0) == before);
            }
            while j < way.nodes.len()
                invariant
                    j <= way.nodes@.len(),
                    reached == before + way.nodes@.take(j as int),
                    nodes@ == distinct(reached),
                    forall|node: i64| seen@.contains(node) <==> nodes@.contains(node),
                decreases way.nodes@.len() - j,
            {
                let node: i64 = way.nodes[j];
                proof {
                    let next = reached.push(node);
                    assert(next.drop_last() == reached);
                    assert(next == before + way.nodes@.take(j + 1));
                    assert forall|other: i64|
                        nodes@.push(node).contains(other) <==> nodes@.contains(other) || other
                            == node by {
                        vstd::seq_lib::lemma_seq_contains_after_push(nodes@, node, other);
                    }
                    reached = next;
                }
                if !seen.contains(&node) {
                    seen.insert(node);
                    nodes.push(node);
                }
                j += 1;
            }
            proof {
                let chosen = selection(ways@.take(i as int), spec@);
                assert(way.nodes@.take(way.nodes@.len() as int) == way.nodes@);
                assert(chosen.push(*way).drop_last() == chosen);
            }
        }
        i += 1;
    }
    proof {
        assert(ways@.take(ways@.len() as int) == ways@);
    }
    nodes
}

/// Computes the statistics of every way that the filter selects.
pub fn run(ways: &Vec<Way>, spec: &FilterSpec, index: &ElevationIndex) -> (r: Result<
    Vec<WayStatistics>,
    AggregateError,
>)
    ensures
        summary_view(r) == summary(ways@, spec@, index@),
{
    let mut statistics: Vec<WayStatistics> = Vec::new();
    let mut i: usize = 0;
    proof {
        assert(ways@.take(0) == Seq::<Way>::empty());
        assert(Seq::new(statistics@.len(), |k: int| statistics@[k]@) == totals_of(
            selection(ways@.take(0), spec@),
            index@,
        ));
    }
    while i < ways.len()
        invariant
            i <= ways@.len(),
            Seq::new(statistics@.len(), |k: int| statistics@[k]@) == totals_of(
                selection(ways@.take(i as int), spec@),
                index@,
            ),
            forall|k: int| 0 <= k < i ==> !fails(spec@, index@)(#[trigger] ways@[k]),
        decreases ways@.len() - i,
    {
        let way = &ways[i];
        proof {
            assert(ways@.take(i + 1).drop_last() == ways@.take(i as int));
            assert(ways@.take(i + 1).last() == *way);
        }
        if crate::filter::matches(&way.tags, spec) {
            match try_aggregate(way, index) {
                Ok(found) => {
                    let ghost before = Seq::new(statistics@.len(), |k: int| statistics@[k]@);
                    statistics.push(found);
                    proof {
                        assert(Seq::new(statistics@.len(), |k: int| statistics@[k]@)
                            == before.push(found@));
                        assert(totals_of(selection(ways@.take(i + 1), spec@), index@)
                            == before.push(found@));
                    }
                },
                Err(e) => {
                    proof {
                        lemma_first_index_is(ways@, fails(spec@, index@), i as int);
                    }
                    return Err(e);
                },
            }
        }
        i += 1;
    }
    proof {
        assert(ways@.take(ways@.len() as int) == ways@);
        lemma_first_index_is(ways@, fails(spec@, index@), i as int);
    }
    Ok(statistics)
}

} // verus!
