//! The statistics of one way: a fold over its segments.
//!
//! Segment `i` of a way runs from node `i` to node `i + 1`. It is a climb when
//! the second node lies strictly higher than the first, and a descent
//! otherwise, level segments included. Every segment adds its length to the
//! distance, and to the climb distance or the descent distance according to
//! its kind; a climb adds its rise to the total climb, a descent its fall to
//! the total descent. Each segment adds its own length only, so the climb
//! distance and the descent distance always partition the distance.

use crate::elevation::ElevationIndex;
use crate::way::{segment_count, Way};
use vstd::prelude::*;

verus! {

/// The statistics of one way, in the caller's fixed-point units.
#[derive(Clone, Copy, Debug, PartialEq, Eq, Structural)]
pub struct WayStatistics {
    pub way_id: i64,
    /// Total horizontal length.
    pub distance: u128,
    /// Length of the segments that climb.
    pub climb_distance: u128,
    /// Length of the segments that descend or stay level.
    pub descent_distance: u128,
    /// Total elevation gained.
    pub climb: u128,
    /// Total elevation lost.
    pub descent: u128,
}

/// The statistics of one way as mathematical integers.
pub struct Totals {
    pub way_id: i64,
    pub distance: int,
    pub climb_distance: int,
    pub descent_distance: int,
    pub climb: int,
    pub descent: int,
}

impl View for WayStatistics {
    type V = Totals;

    open spec fn view(&self) -> Totals {
        Totals {
            way_id: self.way_id,
            distance: self.distance as int,
            climb_distance: self.climb_distance as int,
            descent_distance: self.descent_distance as int,
            climb: self.climb as int,
            descent: self.descent as int,
        }
    }
}

/// Why a way has no statistics.
#[derive(Clone, Copy, Debug, PartialEq, Eq, Structural)]
pub enum AggregateError {
    /// The way does not have one length per segment.
    MalformedWay { way_id: i64 },
    /// A node on a segment of the way was never sampled. The elevations are
    /// gathered for exactly the nodes of the selected ways, so this is a
    /// fault of whoever built the index, not of the input.
    MissingElevation { way_id: i64, node_id: i64 },
}

/// The sum of a sequence of integers.
pub open spec fn sum(values: Seq<int>) -> int
    decreases values.len(),
{
    if values.len() == 0 {
        0
    } else {
        sum(values.drop_last()) + values.last()
    }
}

/// The elevations of the nodes along a way, in order.
pub open spec fn profile(nodes: Seq<i64>, elevations: Map<i64, i64>) -> Seq<int> {
    Seq::new(nodes.len(), |i: int| elevations[nodes[i]] as int)
}

/// Whether segment `i` ends strictly higher than it starts.
pub open spec fn is_climb(profile: Seq<int>, i: int) -> bool {
    profile[i + 1] > profile[i]
}

/// The length of each segment.
pub open spec fn distances(lengths: Seq<u64>) -> Seq<int> {
    Seq::new(lengths.len(), |i: int| lengths[i] as int)
}

/// The length of each segment that climbs, and zero for every other.
pub open spec fn climb_distances(profile: Seq<int>, lengths: Seq<u64>) -> Seq<int> {
    Seq::new(
        lengths.len(),
        |i: int|
            if is_climb(profile, i) {
                lengths[i] as int
            } else {
                0
            },
    )
}

/// The length of each segment that does not climb, and zero for every other.
pub open spec fn descent_distances(profile: Seq<int>, lengths: Seq<u64>) -> Seq<int> {
    Seq::new(
        lengths.len(),
        |i: int|
            if is_climb(profile, i) {
                0
            } else {
                lengths[i] as int
            },
    )
}

/// The elevation gained on each of the first `segments` segments.
pub open spec fn climbs(profile: Seq<int>, segments: nat) -> Seq<int> {
    Seq::new(
        segments,
        |i: int|
            if is_climb(profile, i) {
                profile[i + 1] - profile[i]
            } else {
                0
            },
    )
}

/// The elevation lost on each of the first `segments` segments.
pub open spec fn descents(profile: Seq<int>, segments: nat) -> Seq<int> {
    Seq::new(
        segments,
        |i: int|
            if is_climb(profile, i) {
                0
            } else {
                profile[i] - profile[i + 1]
            },
    )
}

/// The statistics of a way with the given elevation profile and segment
/// lengths.
pub open spec fn way_totals(way_id: i64, profile: Seq<int>, lengths: Seq<u64>) -> Totals {
    Totals {
        way_id,
        distance: sum(distances(lengths)),
        climb_distance: sum(climb_distances(profile, lengths)),
        descent_distance: sum(descent_distances(profile, lengths)),
        climb: sum(climbs(profile, lengths.len())),
        descent: sum(descents(profile, lengths.len())),
    }
}

/// Whether `elevations` holds every node that a segment of the way touches.
/// A way with fewer than two nodes has no segment and needs no elevation.
pub open spec fn covers(elevations: Map<i64, i64>, nodes: Seq<i64>) -> bool {
    nodes.len() >= 2 ==> forall|i: int|
        0 <= i < nodes.len() ==> elevations.contains_key(#[trigger] nodes[i])
}

/// The first node, in order along the way, that `elevations` does not hold.
pub open spec fn first_missing(elevations: Map<i64, i64>, nodes: Seq<i64>) -> Option<i64>
    decreases nodes.len(),
{
    if nodes.len() == 0 {
        None
    } else if !elevations.contains_key(nodes[0]) {
        Some(nodes[0])
    } else {
        first_missing(elevations, nodes.drop_first())
    }
}

/// What aggregating a way comes to: its statistics, or the reason why it
/// has none.
pub open spec fn aggregated(way: Way, elevations: Map<i64, i64>) -> Result<Totals, AggregateError> {
    if !way.well_formed() {
        Err(AggregateError::MalformedWay { way_id: way.id })
    } else if way.nodes@.len() >= 2 && first_missing(elevations, way.nodes@) is Some {
        Err(
            AggregateError::MissingElevation {
                way_id: way.id,
                node_id: first_missing(elevations, way.nodes@)->0,
            },
        )
    } else {
        Ok(way_totals(way.id, profile(way.nodes@, elevations), way.lengths@))
    }
}

/// The view of a result of aggregation.
pub open spec fn outcome(r: Result<WayStatistics, AggregateError>) -> Result<
    Totals,
    AggregateError,
> {
    match r {
        Ok(statistics) => Ok(statistics@),
        Err(e) => Err(e),
    }
}

/// No node is missing exactly when every node is held.
pub proof fn lemma_first_missing_none(elevations: Map<i64, i64>, nodes: Seq<i64>)
    ensures
        first_missing(elevations, nodes) is None <==> forall|i: int|
            0 <= i < nodes.len() ==> elevations.contains_key(#[trigger] nodes[i]),
        first_missing(elevations, nodes) is Some ==> nodes.contains(
            first_missing(elevations, nodes)->0,
        ) && !elevations.contains_key(first_missing(elevations, nodes)->0),
    decreases nodes.len(),
{
    if nodes.len() > 0 {
        let rest = nodes.drop_first();
        lemma_first_missing_none(elevations, rest);
        if elevations.contains_key(nodes[0]) {
            if first_missing(elevations, rest) is None {
                assert forall|i: int| 0 <= i < nodes.len() implies elevations.contains_key(
                    #[trigger] nodes[i],
                ) by {
                    if i > 0 {
                        assert(nodes[i] == rest[i - 1]);
                    }
                }
            } else {
                let j = choose|j: int|
                    0 <= j < rest.len() && !elevations.contains_key(#[trigger] rest[j]);
                assert(nodes[j + 1] == rest[j]);
                let m = first_missing(elevations, rest)->0;
                let k = choose|k: int| 0 <= k < rest.len() && rest[k] == m;
                assert(nodes[k + 1] == m);
            }
        } else {
            assert(nodes[0] == first_missing(elevations, nodes)->0);
        }
    }
}

/// Adding one more value to a prefix adds that value to the prefix's sum.
pub proof fn lemma_sum_step(values: Seq<int>, i: int)
    requires
        0 <= i < values.len(),
    ensures
        sum(values.take(i + 1)) == sum(values.take(i)) + values[i],
{
    assert(values.take(i + 1).drop_last() == values.take(i));
}

/// A sum of values none of which is negative is not negative.
pub proof fn lemma_sum_nonnegative(values: Seq<int>)
    requires
        forall|i: int| 0 <= i < values.len() ==> 0 <= #[trigger] values[i],
    ensures
        0 <= sum(values),
    decreases values.len(),
{
    if values.len() > 0 {
        lemma_sum_nonnegative(values.drop_last());
    }
}

/// Where each value of `whole` is the sum of the values of `left` and
/// `right` at the same place, the sums add up likewise.
pub proof fn lemma_sum_split(left: Seq<int>, right: Seq<int>, whole: Seq<int>)
    requires
        left.len() == whole.len(),
        right.len() == whole.len(),
        forall|i: int| 0 <= i < whole.len() ==> left[i] + right[i] == #[trigger] whole[i],
    ensures
        sum(left) + sum(right) == sum(whole),
    decreases whole.len(),
{
    if whole.len() > 0 {
        lemma_sum_split(left.drop_last(), right.drop_last(), whole.drop_last());
    }
}

/// Computes the statistics of `way` from the elevations of its nodes.
pub fn aggregate(way: &Way, index: &ElevationIndex) -> (r: WayStatistics)
    requires
        way.well_formed(),
        covers(index@, way.nodes@),
    ensures
        r@ == way_totals(way.id, profile(way.nodes@, index@), way.lengths@),
        r.climb_distance + r.descent_distance == r.distance,
{
    let ghost heights = profile(way.nodes@, index@);
    let ghost all = distances(way.lengths@);
    let ghost up = climb_distances(heights, way.lengths@);
    let ghost down = descent_distances(heights, way.lengths@);
    let ghost rise = climbs(heights, way.lengths@.len());
    let ghost fall = descents(heights, way.lengths@.len());
    let segments = way.lengths.len();
    let mut distance: u128 = 0;
    let mut climb_distance: u128 = 0;
    let mut descent_distance: u128 = 0;
    let mut climb: u128 = 0;
    let mut descent: u128 = 0;
    if segments > 0 {
        let mut from: i64 = elevation_at(index, way.nodes[0]);
        let mut i: usize = 0;
        while i < segments
            invariant
                i <= segments,
                segments == way.lengths@.len(),
                segments + 1 == way.nodes@.len(),
                covers(index@, way.nodes@),
                heights == profile(way.nodes@, index@),
                all == distances(way.lengths@),
                up == climb_distances(heights, way.lengths@),
                down == descent_distances(heights, way.lengths@),
                rise == climbs(heights, way.lengths@.len()),
                fall == descents(heights, way.lengths@.len()),
                from == heights[i as int],
                distance == sum(all.take(i as int)),
                climb_distance == sum(up.take(i as int)),
                descent_distance == sum(down.take(i as int)),
                climb == sum(rise.take(i as int)),
                descent == sum(fall.take(i as int)),
                distance <= i * 0xffff_ffff_ffff_ffff,
                climb_distance + descent_distance == distance,
                climb <= i * 0xffff_ffff_ffff_ffff,
                descent <= i * 0xffff_ffff_ffff_ffff,
            decreases segments - i,
        {
            let to: i64 = elevation_at(index, way.nodes[i + 1]);
            let length: u64 = way.lengths[i];
            proof {
                lemma_sum_step(all, i as int);
                lemma_sum_step(up, i as int);
                lemma_sum_step(down, i as int);
                lemma_sum_step(rise, i as int);
                lemma_sum_step(fall, i as int);
            }
            distance = distance + length as u128;
            if to > from {
                climb_distance = climb_distance + length as u128;
                climb = climb + (to as i128 - from as i128) as u128;
            } else {
                descent_distance = descent_distance + length as u128;
                descent = descent + (from as i128 - to as i128) as u128;
            }
            from = to;
            i += 1;
        }
    }
    proof {
        assert(all.take(segments as int) == all);
        assert(up.take(segments as int) == up);
        assert(down.take(segments as int) == down);
        assert(rise.take(segments as int) == rise);
        assert(fall.take(segments as int) == fall);
    }
    WayStatistics { way_id: way.id, distance, climb_distance, descent_distance, climb, descent }
}

/// Finds the first node of `nodes` that the index does not hold.
pub fn find_missing(index: &ElevationIndex, nodes: &Vec<i64>) -> (r: Option<i64>)
    ensures
        r == first_missing(index@, nodes@),
{
    let mut i: usize = 0;
    proof {
        assert(nodes@.skip(0) == nodes@);
    }
    while i < nodes.len()
        invariant
            i <= nodes.len(),
            first_missing(index@, nodes@) == first_missing(index@, nodes@.skip(i as int)),
        decreases nodes.len() - i,
    {
        let node: i64 = nodes[i];
        proof {
            assert(nodes@.skip(i as int)[0] == node);
            assert(nodes@.skip(i as int).drop_first() == nodes@.skip(i + 1));
        }
        if index.get(node).is_none() {
            return Some(node);
        }
        i += 1;
    }
    None
}

/// Computes the statistics of `way` after checking that it has one length
/// per segment and that every node on a segment has an elevation.
pub fn try_aggregate(way: &Way, index: &ElevationIndex) -> (r: Result<
    WayStatistics,
    AggregateError,
>)
    ensures
        outcome(r) == aggregated(*way, index@),
{
    if !way.is_well_formed() {
        return Err(AggregateError::MalformedWay { way_id: way.id });
    }
    if way.nodes.len() >= 2 {
        match find_missing(index, &way.nodes) {
            Some(node_id) => {
                return Err(AggregateError::MissingElevation { way_id: way.id, node_id });
            },
            None => {},
        }
    }
    proof {
        lemma_first_missing_none(index@, way.nodes@);
    }
    Ok(aggregate(way, index))
}

/// Looks up a node that the index is known to hold.
fn elevation_at(index: &ElevationIndex, node: i64) -> (e: i64)
    requires
        index@.contains_key(node),
    ensures
        e == index@[node],
{
    match index.get(node) {
        Some(e) => e,
        None => vstd::pervasive::unreached(),
    }
}

/// The sum of two sequences put together is the sum of their sums.
pub proof fn lemma_sum_of_joined(first: Seq<int>, second: Seq<int>)
    ensures
        sum(first + second) == sum(first) + sum(second),
    decreases second.len(),
{
    if second.len() == 0 {
        assert(first + second == first);
    } else {
        lemma_sum_of_joined(first, second.drop_last());
        assert((first + second).drop_last() == first + second.drop_last());
    }
}

/// The profile of two stretches of way put end to end: the second begins at
/// the node where the first ends, and that node is taken once.
pub open spec fn joined_profile(first: Seq<int>, second: Seq<int>) -> Seq<int> {
    first + second.skip(1)
}

/// No segment is skipped and none counts twice: where a way is cut at one of
/// its nodes, each statistic of the whole is the sum of that statistic over
/// the two stretches.
pub proof fn lemma_totals_of_joined_ways(
    way_id: i64,
    first: Seq<int>,
    first_lengths: Seq<u64>,
    second: Seq<int>,
    second_lengths: Seq<u64>,
)
    requires
        first.len() == first_lengths.len() + 1,
        second.len() == second_lengths.len() + 1,
        first.last() == second[0],
    ensures
        ({
            let whole = way_totals(
                way_id,
                joined_profile(first, second),
                first_lengths + second_lengths,
            );
            let head = way_totals(way_id, first, first_lengths);
            let tail = way_totals(way_id, second, second_lengths);
            &&& whole.distance == head.distance + tail.distance
            &&& whole.climb_distance == head.climb_distance + tail.climb_distance
            &&& whole.descent_distance == head.descent_distance + tail.descent_distance
            &&& whole.climb == head.climb + tail.climb
            &&& whole.descent == head.descent + tail.descent
        }),
{
    let heights = joined_profile(first, second);
    let lengths = first_lengths + second_lengths;
    let cut = first_lengths.len() as int;
    assert forall|i: int| 0 <= i < lengths.len() implies ({
        &&& i < cut ==> #[trigger] heights[i] == first[i] && heights[i + 1] == first[i + 1]
        &&& i >= cut ==> heights[i] == second[i - cut] && heights[i + 1] == second[i - cut + 1]
    }) by {
        if i == cut {
            assert(heights[i] == first.last());
        }
    }
    assert(distances(lengths) == distances(first_lengths) + distances(second_lengths));
    assert(climb_distances(heights, lengths) == climb_distances(first, first_lengths)
        + climb_distances(second, second_lengths));
    assert(descent_distances(heights, lengths) == descent_distances(first, first_lengths)
        + descent_distances(second, second_lengths));
    assert(climbs(heights, lengths.len()) == climbs(first, first_lengths.len()) + climbs(
        second,
        second_lengths.len(),
    ));
    assert(descents(heights, lengths.len()) == descents(first, first_lengths.len()) + descents(
        second,
        second_lengths.len(),
    ));
    lemma_sum_of_joined(distances(first_lengths), distances(second_lengths));
    lemma_sum_of_joined(
        climb_distances(first, first_lengths),
        climb_distances(second, second_lengths),
    );
    lemma_sum_of_joined(
        descent_distances(first, first_lengths),
        descent_distances(second, second_lengths),
    );
    lemma_sum_of_joined(climbs(first, first_lengths.len()), climbs(second, second_lengths.len()));
    lemma_sum_of_joined(
        descents(first, first_lengths.len()),
        descents(second, second_lengths.len()),
    );
}

/// The statistics of a way of two nodes are those of its one segment.
pub proof fn lemma_totals_of_one_segment(way_id: i64, from: int, to: int, length: u64)
    ensures
        way_totals(way_id, seq![from, to], seq![length]) == if to > from {
            Totals {
                way_id,
                distance: length as int,
                climb_distance: length as int,
                descent_distance: 0,
                climb: to - from,
                descent: 0,
            }
        } else {
            Totals {
                way_id,
                distance: length as int,
                climb_distance: 0,
                descent_distance: length as int,
                climb: 0,
                descent: from - to,
            }
        },
{
    let heights = seq![from, to];
    let lengths = seq![length];
    reveal_with_fuel(sum, 2);
    assert(distances(lengths).drop_last() == Seq::<int>::empty());
    assert(climb_distances(heights, lengths).drop_last() == Seq::<int>::empty());
    assert(descent_distances(heights, lengths).drop_last() == Seq::<int>::empty());
    assert(climbs(heights, 1).drop_last() == Seq::<int>::empty());
    assert(descents(heights, 1).drop_last() == Seq::<int>::empty());
}

/// A way with at most one node has no segment: all its statistics are zero,
/// whatever the elevations.
pub proof fn lemma_short_way_is_all_zero(way: Way, elevations: Map<i64, i64>)
    requires
        way.well_formed(),
        way.nodes@.len() <= 1,
    ensures
        aggregated(way, elevations) == Ok::<Totals, AggregateError>(
            Totals {
                way_id: way.id,
                distance: 0,
                climb_distance: 0,
                descent_distance: 0,
                climb: 0,
                descent: 0,
            },
        ),
{
}

/// None of the five statistics is ever negative.
pub proof fn lemma_totals_are_nonnegative(way_id: i64, profile: Seq<int>, lengths: Seq<u64>)
    ensures
        way_totals(way_id, profile, lengths).distance >= 0,
        way_totals(way_id, profile, lengths).climb_distance >= 0,
        way_totals(way_id, profile, lengths).descent_distance >= 0,
        way_totals(way_id, profile, lengths).climb >= 0,
        way_totals(way_id, profile, lengths).descent >= 0,
{
    lemma_sum_nonnegative(distances(lengths));
    lemma_sum_nonnegative(climb_distances(profile, lengths));
    lemma_sum_nonnegative(descent_distances(profile, lengths));
    lemma_sum_nonnegative(climbs(profile, lengths.len()));
    lemma_sum_nonnegative(descents(profile, lengths.len()));
}

/// Every segment is either a climb or a descent, so the climb distance and
/// the descent distance add up to the distance.
pub proof fn lemma_climb_and_descent_partition_distance(
    way_id: i64,
    profile: Seq<int>,
    lengths: Seq<u64>,
)
    ensures
        way_totals(way_id, profile, lengths).climb_distance + way_totals(
            way_id,
            profile,
            lengths,
        ).descent_distance == way_totals(way_id, profile, lengths).distance,
{
    lemma_sum_split(
        climb_distances(profile, lengths),
        descent_distances(profile, lengths),
        distances(lengths),
    );
}

} // verus!
