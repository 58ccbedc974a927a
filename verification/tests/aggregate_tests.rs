use osmpbfreader::Tags;
use way_slope::aggregate::{aggregate, find_missing, try_aggregate, AggregateError, WayStatistics};
use way_slope::elevation::{ElevationIndex, Sample};
use way_slope::way::Way;

fn index_of(elevations: &[(i64, i64)]) -> ElevationIndex {
    let samples: Vec<Sample> =
        elevations.iter().map(|&(node, elevation)| Sample { node, elevation }).collect();
    ElevationIndex::build(&samples)
}

fn way_of(id: i64, nodes: &[i64], lengths: &[u64]) -> Way {
    Way { id, nodes: nodes.to_vec(), lengths: lengths.to_vec(), tags: Tags::new() }
}

fn zero(way_id: i64) -> WayStatistics {
    WayStatistics {
        way_id,
        distance: 0,
        climb_distance: 0,
        descent_distance: 0,
        climb: 0,
        descent: 0,
    }
}

#[test]
fn a_climb_and_a_descent() {
    let index = index_of(&[(1, 100), (2, 150), (3, 120)]);
    let way = way_of(7, &[1, 2, 3], &[200, 300]);
    let expected = WayStatistics {
        way_id: 7,
        distance: 500,
        climb_distance: 200,
        descent_distance: 300,
        climb: 50,
        descent: 30,
    };
    assert_eq!(aggregate(&way, &index), expected);
    assert_eq!(try_aggregate(&way, &index), Ok(expected));
}

#[test]
fn a_way_without_nodes_is_all_zero() {
    let index = index_of(&[(1, 100)]);
    let way = way_of(9, &[], &[]);
    assert_eq!(aggregate(&way, &index), zero(9));
    assert_eq!(try_aggregate(&way, &index), Ok(zero(9)));
}

#[test]
fn a_way_of_one_node_is_all_zero() {
    let index = index_of(&[(1, 100)]);
    let way = way_of(-4, &[1], &[]);
    assert_eq!(aggregate(&way, &index), zero(-4));
    assert_eq!(try_aggregate(&way, &index), Ok(zero(-4)));
}

#[test]
fn a_way_of_one_node_needs_no_elevation() {
    let index = index_of(&[]);
    let way = way_of(5, &[42], &[]);
    assert_eq!(try_aggregate(&way, &index), Ok(zero(5)));
}

#[test]
fn a_level_segment_is_a_descent_of_nothing() {
    let index = index_of(&[(1, 250), (2, 250)]);
    let way = way_of(1, &[1, 2], &[80]);
    assert_eq!(
        aggregate(&way, &index),
        WayStatistics {
            way_id: 1,
            distance: 80,
            climb_distance: 0,
            descent_distance: 80,
            climb: 0,
            descent: 0,
        }
    );
}

#[test]
fn a_single_climb() {
    let index = index_of(&[(10, -5), (20, 15)]);
    let way = way_of(2, &[10, 20], &[1000]);
    assert_eq!(
        aggregate(&way, &index),
        WayStatistics {
            way_id: 2,
            distance: 1000,
            climb_distance: 1000,
            descent_distance: 0,
            climb: 20,
            descent: 0,
        }
    );
}

#[test]
fn a_single_descent() {
    let index = index_of(&[(10, -5), (20, 15)]);
    let way = way_of(3, &[20, 10], &[1000]);
    assert_eq!(
        aggregate(&way, &index),
        WayStatistics {
            way_id: 3,
            distance: 1000,
            climb_distance: 0,
            descent_distance: 1000,
            climb: 0,
            descent: 20,
        }
    );
}

#[test]
fn each_segment_adds_its_own_length_only() {
    let index = index_of(&[(1, 0), (2, 10), (3, 20), (4, 30)]);
    let way = way_of(1, &[1, 2, 3, 4], &[100, 100, 100]);
    let statistics = aggregate(&way, &index);
    assert_eq!(statistics.distance, 300);
    assert_eq!(statistics.climb_distance, 300);
    assert_eq!(statistics.descent_distance, 0);
    assert_eq!(statistics.climb, 30);
}

#[test]
fn climb_and_descent_distance_add_up_to_the_distance() {
    let index = index_of(&[(1, 5), (2, 9), (3, 9), (4, 2), (5, 40), (6, -3)]);
    let way = way_of(1, &[1, 2, 3, 4, 5, 6, 1, 5], &[11, 22, 33, 44, 55, 66, 77]);
    let statistics = aggregate(&way, &index);
    assert_eq!(statistics.distance, 11 + 22 + 33 + 44 + 55 + 66 + 77);
    assert_eq!(statistics.climb_distance, 11 + 44 + 66 + 77);
    assert_eq!(statistics.descent_distance, 22 + 33 + 55);
    assert_eq!(statistics.climb_distance + statistics.descent_distance, statistics.distance);
    assert_eq!(statistics.climb, 4 + 38 + 8 + 35);
    assert_eq!(statistics.descent, 0 + 7 + 43);
}

#[test]
fn a_way_may_pass_a_node_twice() {
    let index = index_of(&[(1, 0), (2, 10)]);
    let way = way_of(1, &[1, 2, 1, 2], &[5, 6, 7]);
    assert_eq!(
        aggregate(&way, &index),
        WayStatistics {
            way_id: 1,
            distance: 18,
            climb_distance: 12,
            descent_distance: 6,
            climb: 20,
            descent: 10,
        }
    );
}

#[test]
fn a_segment_of_no_length_still_climbs() {
    let index = index_of(&[(1, 0), (2, 10)]);
    let way = way_of(1, &[1, 2], &[0]);
    assert_eq!(
        aggregate(&way, &index),
        WayStatistics {
            way_id: 1,
            distance: 0,
            climb_distance: 0,
            descent_distance: 0,
            climb: 10,
            descent: 0,
        }
    );
}

#[test]
fn the_largest_values_do_not_overflow() {
    let index = index_of(&[(1, i64::MIN), (2, i64::MAX)]);
    let way = way_of(1, &[1, 2, 1, 2], &[u64::MAX, u64::MAX, u64::MAX]);
    let span = u64::MAX as u128;
    assert_eq!(
        aggregate(&way, &index),
        WayStatistics {
            way_id: 1,
            distance: 3 * span,
            climb_distance: 2 * span,
            descent_distance: span,
            climb: 2 * span,
            descent: span,
        }
    );
}

#[test]
fn a_missing_elevation_is_an_error() {
    let index = index_of(&[(1, 100), (3, 120)]);
    let way = way_of(7, &[1, 2, 3], &[200, 300]);
    assert_eq!(
        try_aggregate(&way, &index),
        Err(AggregateError::MissingElevation { way_id: 7, node_id: 2 })
    );
}

#[test]
fn the_first_missing_node_is_named() {
    let index = index_of(&[(3, 120)]);
    let way = way_of(7, &[3, 5, 4, 5], &[1, 1, 1]);
    assert_eq!(
        try_aggregate(&way, &index),
        Err(AggregateError::MissingElevation { way_id: 7, node_id: 5 })
    );
    let way = way_of(8, &[6, 3], &[1]);
    assert_eq!(
        try_aggregate(&way, &index),
        Err(AggregateError::MissingElevation { way_id: 8, node_id: 6 })
    );
}

#[test]
fn a_way_without_its_lengths_is_malformed() {
    let index = index_of(&[(1, 100), (2, 150), (3, 120)]);
    assert_eq!(
        try_aggregate(&way_of(7, &[1, 2, 3], &[200]), &index),
        Err(AggregateError::MalformedWay { way_id: 7 })
    );
    assert_eq!(
        try_aggregate(&way_of(8, &[1, 2], &[200, 300]), &index),
        Err(AggregateError::MalformedWay { way_id: 8 })
    );
    assert_eq!(
        try_aggregate(&way_of(9, &[1], &[200]), &index),
        Err(AggregateError::MalformedWay { way_id: 9 })
    );
    assert_eq!(
        try_aggregate(&way_of(10, &[], &[1]), &index),
        Err(AggregateError::MalformedWay { way_id: 10 })
    );
}

#[test]
fn a_malformed_way_is_reported_before_a_missing_node() {
    let index = index_of(&[]);
    assert_eq!(
        try_aggregate(&way_of(7, &[1, 2, 3], &[200]), &index),
        Err(AggregateError::MalformedWay { way_id: 7 })
    );
}

#[test]
fn find_missing_gives_the_first_node_without_elevation() {
    let index = index_of(&[(1, 0), (2, 0)]);
    assert_eq!(find_missing(&index, &vec![1, 2, 1]), None);
    assert_eq!(find_missing(&index, &vec![]), None);
    assert_eq!(find_missing(&index, &vec![1, 9, 2, 8]), Some(9));
    assert_eq!(find_missing(&index, &vec![8, 9]), Some(8));
}

#[test]
fn well_formed_means_one_length_per_segment() {
    assert!(way_of(1, &[], &[]).is_well_formed());
    assert!(way_of(1, &[5], &[]).is_well_formed());
    assert!(way_of(1, &[5, 6], &[1]).is_well_formed());
    assert!(way_of(1, &[5, 6, 7], &[1, 2]).is_well_formed());
    assert!(!way_of(1, &[], &[1]).is_well_formed());
    assert!(!way_of(1, &[5], &[1]).is_well_formed());
    assert!(!way_of(1, &[5, 6], &[]).is_well_formed());
    assert!(!way_of(1, &[5, 6], &[1, 2]).is_well_formed());
}

#[test]
fn aggregation_gives_the_same_result_each_time() {
    let index = index_of(&[(1, 100), (2, 150), (3, 120)]);
    let way = way_of(7, &[1, 2, 3, 1], &[200, 300, 400]);
    assert_eq!(try_aggregate(&way, &index), try_aggregate(&way, &index));
}

#[test]
fn the_parts_of_a_cut_way_add_up_to_the_whole() {
    let index = index_of(&[(1, 5), (2, 9), (3, 9), (4, 2), (5, 40), (6, -3)]);
    let nodes = [1, 2, 3, 4, 5, 6, 1, 5];
    let lengths = [11, 22, 33, 44, 55, 66, 77];
    let whole = aggregate(&way_of(1, &nodes, &lengths), &index);
    for cut in 0..nodes.len() {
        let head = aggregate(&way_of(1, &nodes[..=cut], &lengths[..cut]), &index);
        let tail = aggregate(&way_of(1, &nodes[cut..], &lengths[cut..]), &index);
        assert_eq!(whole.distance, head.distance + tail.distance);
        assert_eq!(whole.climb_distance, head.climb_distance + tail.climb_distance);
        assert_eq!(whole.descent_distance, head.descent_distance + tail.descent_distance);
        assert_eq!(whole.climb, head.climb + tail.climb);
        assert_eq!(whole.descent, head.descent + tail.descent);
    }
}

#[test]
fn no_statistic_is_lost_between_extremes() {
    let index = index_of(&[(1, i64::MAX), (2, i64::MIN), (3, 0)]);
    let way = way_of(1, &[1, 2, 3, 1], &[0, u64::MAX, 1]);
    let statistics = aggregate(&way, &index);
    assert_eq!(statistics.distance, u64::MAX as u128 + 1);
    assert_eq!(statistics.descent, u64::MAX as u128);
    assert_eq!(statistics.climb, u64::MAX as u128);
    assert_eq!(statistics.climb_distance, u64::MAX as u128 + 1);
    assert_eq!(statistics.descent_distance, 0);
}
