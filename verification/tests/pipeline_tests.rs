use osmpbfreader::Tags;
use way_slope::aggregate::{AggregateError, WayStatistics};
use way_slope::elevation::{ElevationIndex, Sample};
use way_slope::filter::{parse_filter_spec, Filter, FilterSpec};
use way_slope::pipeline::{referenced_nodes, run};
use way_slope::way::Way;

fn tags_of(pairs: &[(&str, &str)]) -> Tags {
    let mut tags = Tags::new();
    for (key, value) in pairs {
        tags.insert(
            smartstring::alias::String::from(*key),
            smartstring::alias::String::from(*value),
        );
    }
    tags
}

fn way_of(id: i64, nodes: &[i64], lengths: &[u64], tags: &[(&str, &str)]) -> Way {
    Way { id, nodes: nodes.to_vec(), lengths: lengths.to_vec(), tags: tags_of(tags) }
}

fn index_of(elevations: &[(i64, i64)]) -> ElevationIndex {
    let samples: Vec<Sample> =
        elevations.iter().map(|&(node, elevation)| Sample { node, elevation }).collect();
    ElevationIndex::build(&samples)
}

fn network() -> Vec<Way> {
    vec![
        way_of(10, &[1, 2, 3], &[200, 300], &[("highway", "residential")]),
        way_of(20, &[7, 8], &[50], &[("waterway", "river")]),
        way_of(30, &[3, 4, 1], &[10, 20], &[("highway", "primary"), ("surface", "paved")]),
        way_of(40, &[5], &[], &[("highway", "service")]),
    ]
}

fn elevations() -> ElevationIndex {
    index_of(&[(1, 100), (2, 150), (3, 120), (4, 120), (5, 7)])
}

#[test]
fn the_nodes_of_the_selected_ways_are_listed_once() {
    assert_eq!(referenced_nodes(&network(), &FilterSpec::default()), vec![1, 2, 3, 4, 5]);
}

#[test]
fn nodes_come_in_the_order_in_which_the_ways_reach_them() {
    let ways = vec![
        way_of(1, &[9, 3, 9], &[1, 1], &[("highway", "a")]),
        way_of(2, &[5, 3, 1, 9], &[1, 1, 1], &[("highway", "b")]),
    ];
    assert_eq!(referenced_nodes(&ways, &FilterSpec::default()), vec![9, 3, 5, 1]);
}

#[test]
fn ways_that_are_not_selected_need_no_node() {
    let spec = parse_filter_spec("waterway").unwrap();
    assert_eq!(referenced_nodes(&network(), &spec), vec![7, 8]);
    let spec = parse_filter_spec("railway").unwrap();
    assert_eq!(referenced_nodes(&network(), &spec), Vec::<i64>::new());
    assert_eq!(referenced_nodes(&network(), &FilterSpec { conditions: vec![] }), Vec::<i64>::new());
    assert_eq!(referenced_nodes(&vec![], &FilterSpec::default()), Vec::<i64>::new());
}

#[test]
fn the_selected_ways_get_statistics_in_their_order() {
    let expected = vec![
        WayStatistics {
            way_id: 10,
            distance: 500,
            climb_distance: 200,
            descent_distance: 300,
            climb: 50,
            descent: 30,
        },
        WayStatistics {
            way_id: 30,
            distance: 30,
            climb_distance: 0,
            descent_distance: 30,
            climb: 0,
            descent: 20,
        },
        WayStatistics {
            way_id: 40,
            distance: 0,
            climb_distance: 0,
            descent_distance: 0,
            climb: 0,
            descent: 0,
        },
    ];
    assert_eq!(run(&network(), &FilterSpec::default(), &elevations()), Ok(expected));
}

#[test]
fn a_pair_selects_by_value() {
    let spec = parse_filter_spec("highway=primary").unwrap();
    let found = run(&network(), &spec, &elevations()).unwrap();
    assert_eq!(found.len(), 1);
    assert_eq!(found[0].way_id, 30);
}

#[test]
fn a_run_over_nothing_gives_nothing() {
    assert_eq!(run(&vec![], &FilterSpec::default(), &elevations()), Ok(vec![]));
    assert_eq!(run(&network(), &FilterSpec { conditions: vec![] }, &elevations()), Ok(vec![]));
    let spec = FilterSpec { conditions: vec![Filter::HasKey("railway".to_string())] };
    assert_eq!(run(&network(), &spec, &elevations()), Ok(vec![]));
}

#[test]
fn the_first_way_without_statistics_ends_the_run() {
    let index = index_of(&[(1, 100), (2, 150), (3, 120)]);
    assert_eq!(
        run(&network(), &FilterSpec::default(), &index),
        Err(AggregateError::MissingElevation { way_id: 30, node_id: 4 })
    );
    let index = index_of(&[(3, 120), (4, 120)]);
    assert_eq!(
        run(&network(), &FilterSpec::default(), &index),
        Err(AggregateError::MissingElevation { way_id: 10, node_id: 1 })
    );
}

#[test]
fn a_way_that_is_not_selected_cannot_fail() {
    let mut ways = network();
    ways.insert(0, way_of(5, &[70, 80, 90], &[1], &[("waterway", "stream")]));
    let found = run(&ways, &FilterSpec::default(), &elevations()).unwrap();
    assert_eq!(found.iter().map(|s| s.way_id).collect::<Vec<i64>>(), vec![10, 30, 40]);
}

#[test]
fn a_malformed_selected_way_ends_the_run() {
    let mut ways = network();
    ways.push(way_of(50, &[1, 2], &[], &[("highway", "track")]));
    assert_eq!(
        run(&ways, &FilterSpec::default(), &elevations()),
        Err(AggregateError::MalformedWay { way_id: 50 })
    );
}

#[test]
fn sampling_the_listed_nodes_is_enough() {
    let ways = network();
    let spec = FilterSpec::default();
    let samples: Vec<Sample> = referenced_nodes(&ways, &spec)
        .into_iter()
        .map(|node| Sample { node, elevation: node * 10 })
        .collect();
    let found = run(&ways, &spec, &ElevationIndex::build(&samples)).unwrap();
    assert_eq!(found.len(), 3);
    assert_eq!(found[0].climb, 20);
    assert_eq!(found[0].descent, 0);
    assert_eq!(found[1].climb, 10);
    assert_eq!(found[1].descent, 30);
}

#[test]
fn a_run_gives_the_same_result_each_time() {
    let spec = parse_filter_spec("highway,waterway=river").unwrap();
    let index = index_of(&[(1, 1), (2, 2), (3, 3), (4, 4), (5, 5), (7, 7), (8, 8)]);
    let first = run(&network(), &spec, &index);
    let second = run(&network(), &spec, &index);
    assert_eq!(first, second);
    assert_eq!(first.unwrap().len(), 4);
    assert_eq!(referenced_nodes(&network(), &spec), referenced_nodes(&network(), &spec));
}

#[test]
fn the_order_of_the_samples_does_not_change_the_result() {
    let forward = index_of(&[(1, 100), (2, 150), (3, 120), (4, 120), (5, 7)]);
    let backward = index_of(&[(5, 7), (4, 120), (3, 120), (2, 150), (1, 100)]);
    assert_eq!(
        run(&network(), &FilterSpec::default(), &forward),
        run(&network(), &FilterSpec::default(), &backward)
    );
}
